use dungeon::Direction;
use dungeon::Dungeon;
use dungeon::Errors;
use dungeon::reverse_direction;

#[test]
fn test_basic() {
    let mut dungeon = Dungeon::new();

    dungeon.add_room("Entrance").unwrap();
    dungeon.add_room("Hallway").unwrap();
    dungeon.add_room("Magic Lab").unwrap();

    dungeon.set_link("Entrance", Direction::East, "Hallway").unwrap();
    dungeon.set_link("Hallway", Direction::West, "Magic Lab").unwrap();

    assert_eq!(dungeon.get_next_room("Entrance", Direction::East).unwrap().unwrap().name, "Hallway");
    assert_eq!(dungeon.get_next_room("Hallway", Direction::West).unwrap().unwrap().name, "Magic Lab");
}

#[test]
fn test_basic_1() {
    let mut dungeon = Dungeon::new();

    dungeon.add_room("Entrance").unwrap();
    dungeon.add_room("Hallway").unwrap();
    dungeon.set_link("Entrance", Direction::East, "Hallway").unwrap();

    assert_eq!(dungeon.get_room("Entrance").unwrap().name, "Entrance");
    assert_eq!(dungeon.get_next_room("Entrance", Direction::East).unwrap().unwrap().name, "Hallway");
}

const TEST_INPUT_1: &str = "
## Rooms
- Entrance
- Hallway

## Links
- Entrance -> East -> Hallway
";

#[test]
fn test_basic_2() {
    // .trim() to remove the first and last lines:
    let dungeon = Dungeon::from_reader(TEST_INPUT_1.trim().as_bytes()).unwrap();

    assert_eq!(dungeon.get_room("Entrance").unwrap().name, "Entrance");
    assert_eq!(dungeon.get_room("Hallway").unwrap().name, "Hallway");

    assert_eq!(dungeon.get_next_room("Entrance", Direction::East).unwrap().unwrap().name, "Hallway");
}

#[test]
fn test_basic_3() {
    let mut dungeon = Dungeon::new();

    dungeon.add_room("Entrance").unwrap();
    dungeon.add_room("Treasure Room").unwrap();
    dungeon.set_link("Entrance", Direction::West, "Treasure Room").unwrap();

    let path = dungeon.find_path("Entrance", "Treasure Room").unwrap().unwrap();
    assert!(path.len() > 0);
}

#[test]
fn link_symmetry_on_queries() {
    let mut dungeon = Dungeon::new();
    dungeon.add_room("A").unwrap();
    dungeon.add_room("B").unwrap();
    dungeon.set_link("A", Direction::North, "B").unwrap();

    assert_eq!(dungeon.get_next_room("A", Direction::North).unwrap().unwrap().name, "B");
    assert_eq!(dungeon.get_next_room("B", Direction::South).unwrap().unwrap().name, "A");
}

#[test]
fn duplicate_room_keeps_count() {
    let mut dungeon = Dungeon::new();
    dungeon.add_room("A").unwrap();
    let before = dungeon.rooms.len();
    match dungeon.add_room("A") {
        Err(Errors::DuplicateRoom(name)) => assert_eq!(name, "A"),
        _ => panic!("expected DuplicateRoom"),
    }
    assert_eq!(dungeon.rooms.len(), before);
}

#[test]
fn unknown_room_reports_first_checked_name() {
    let mut dungeon = Dungeon::new();
    match dungeon.set_link("X", Direction::North, "Y") {
        Err(Errors::UnknownRoom(name)) => assert_eq!(name, "X"),
        _ => panic!("expected UnknownRoom"),
    }

    dungeon.add_room("X").unwrap();
    match dungeon.set_link("X", Direction::North, "Y") {
        Err(Errors::UnknownRoom(name)) => assert_eq!(name, "Y"),
        _ => panic!("expected UnknownRoom"),
    }
}

#[test]
fn parse_round_trip() {
    let text = "## Rooms\n- A\n- B\n\n## Links\n- A -> East -> B\n";
    let dungeon = Dungeon::from_reader(text.as_bytes()).unwrap();
    assert_eq!(dungeon.get_room("A").unwrap().name, "A");
    assert_eq!(dungeon.get_room("B").unwrap().name, "B");
    assert_eq!(dungeon.get_next_room("A", Direction::East).unwrap().unwrap().name, "B");
    assert_eq!(dungeon.get_next_room("B", Direction::West).unwrap().unwrap().name, "A");
}

#[test]
fn no_path_is_not_an_error() {
    let mut dungeon = Dungeon::new();
    dungeon.add_room("A").unwrap();
    dungeon.add_room("B").unwrap();
    assert!(dungeon.find_path("A", "B").unwrap().is_none());

    match dungeon.find_path("A", "Z") {
        Err(Errors::UnknownRoom(name)) => assert_eq!(name, "Z"),
        _ => panic!("expected UnknownRoom"),
    }
}

#[test]
fn shortest_path_wins() {
    let mut dungeon = Dungeon::new();
    dungeon.add_room("A").unwrap();
    dungeon.add_room("B").unwrap();
    dungeon.add_room("C").unwrap();
    dungeon.add_room("D").unwrap();
    dungeon.set_link("A", Direction::North, "B").unwrap();
    dungeon.set_link("B", Direction::North, "C").unwrap();
    dungeon.set_link("C", Direction::North, "D").unwrap();
    dungeon.set_link("A", Direction::East, "D").unwrap();

    let path = dungeon.find_path("A", "D").unwrap().unwrap();
    let names: Vec<&str> = path.iter().map(|room| room.name.as_str()).collect();
    assert_eq!(names, vec!["A", "D"]);
}

#[test]
fn self_path_is_one_room() {
    let mut dungeon = Dungeon::new();
    dungeon.add_room("A").unwrap();
    dungeon.add_room("B").unwrap();
    dungeon.set_link("A", Direction::South, "B").unwrap();
    let path = dungeon.find_path("A", "A").unwrap().unwrap();
    let names: Vec<&str> = path.iter().map(|room| room.name.as_str()).collect();
    assert_eq!(names, vec!["A"]);
}

#[test]
fn malformed_room_line_carries_line_number() {
    let text = "## Rooms\n- A\nB without dash\n\n## Links\n";
    match Dungeon::from_reader(text.as_bytes()) {
        Err(Errors::LineParseError { line_number }) => assert_eq!(line_number, 3),
        _ => panic!("expected LineParseError"),
    }
}

#[test]
fn malformed_link_line_carries_line_number() {
    let text = "## Rooms\n- A\n\n## Links\n- A East A\n";
    match Dungeon::from_reader(text.as_bytes()) {
        Err(Errors::LineParseError { line_number }) => assert_eq!(line_number, 5),
        _ => panic!("expected LineParseError"),
    }
}

#[test]
fn bad_direction_token_is_reported() {
    let text = "## Rooms\n- A\n- B\n\n## Links\n- A -> east -> B\n";
    match Dungeon::from_reader(text.as_bytes()) {
        Err(Errors::DirectionParseError(token)) => assert_eq!(token, "east"),
        _ => panic!("expected DirectionParseError"),
    }
}

#[test]
fn link_to_unknown_room_aborts_parse() {
    let text = "## Rooms\n- A\n\n## Links\n- A -> North -> Ghost Room\n";
    match Dungeon::from_reader(text.as_bytes()) {
        Err(Errors::UnknownRoom(name)) => assert_eq!(name, "Ghost Room"),
        _ => panic!("expected UnknownRoom"),
    }
}

#[test]
fn duplicate_room_aborts_parse() {
    let text = "## Rooms\n- A\n- A\n\n## Links\n";
    match Dungeon::from_reader(text.as_bytes()) {
        Err(Errors::DuplicateRoom(name)) => assert_eq!(name, "A"),
        _ => panic!("expected DuplicateRoom"),
    }
}

#[test]
fn empty_and_header_only_inputs_give_empty_dungeon() {
    let dungeon = Dungeon::from_reader("".as_bytes()).unwrap();
    assert_eq!(dungeon.rooms.len(), 0);

    let dungeon = Dungeon::from_reader("   \n\t\n".as_bytes()).unwrap();
    assert_eq!(dungeon.rooms.len(), 0);

    let dungeon = Dungeon::from_reader("## Rooms\n\n## Links\n".as_bytes()).unwrap();
    assert_eq!(dungeon.rooms.len(), 0);
}

#[test]
fn relinking_a_direction_shadows_the_older_link() {
    let mut dungeon = Dungeon::new();
    dungeon.add_room("A").unwrap();
    dungeon.add_room("B").unwrap();
    dungeon.add_room("C").unwrap();
    dungeon.set_link("A", Direction::East, "B").unwrap();
    dungeon.set_link("A", Direction::East, "C").unwrap();
    // The newest link wins on read; the older one stays stored.
    assert_eq!(dungeon.get_next_room("A", Direction::East).unwrap().unwrap().name, "C");
    assert_eq!(dungeon.rooms[0].neighbors.len(), 2);
}

#[test]
fn missing_neighbor_is_not_an_error() {
    let mut dungeon = Dungeon::new();
    dungeon.add_room("A").unwrap();
    assert!(dungeon.get_next_room("A", Direction::North).unwrap().is_none());
    assert!(dungeon.get_next_room("Nowhere", Direction::North).is_err());
}

#[test]
fn reverse_direction_is_an_involution() {
    let dirs = [Direction::North, Direction::South, Direction::East, Direction::West];
    for d in dirs {
        assert_eq!(reverse_direction(reverse_direction(d)), d);
        assert!(reverse_direction(d) != d);
    }
}

struct FailingReader;

impl std::io::Read for FailingReader {
    fn read(&mut self, _buf: &mut [u8]) -> std::io::Result<usize> {
        Err(std::io::Error::new(std::io::ErrorKind::Other, "broken pipe"))
    }
}

impl std::io::BufRead for FailingReader {
    fn fill_buf(&mut self) -> std::io::Result<&[u8]> {
        Err(std::io::Error::new(std::io::ErrorKind::Other, "broken pipe"))
    }

    fn consume(&mut self, _amt: usize) {}
}

#[test]
fn reader_failure_becomes_io_error() {
    match Dungeon::from_reader(FailingReader) {
        Err(Errors::IoError(_)) => {}
        _ => panic!("expected IoError"),
    }
}

#[test]
fn match_prefix_examples() {
    assert_eq!(dungeon::parse::match_prefix("- ", "- Foo"), Some("Foo"));
    assert_eq!(dungeon::parse::match_prefix("- ", "Bar"), None);
}

#[test]
fn cyclic_graph_terminates_and_finds_paths() {
    let mut dungeon = Dungeon::new();
    dungeon.add_room("A").unwrap();
    dungeon.add_room("B").unwrap();
    dungeon.add_room("C").unwrap();
    dungeon.set_link("A", Direction::East, "B").unwrap();
    dungeon.set_link("B", Direction::East, "C").unwrap();
    dungeon.set_link("C", Direction::East, "A").unwrap();
    let path = dungeon.find_path("A", "C").unwrap().unwrap();
    let names: Vec<&str> = path.iter().map(|room| room.name.as_str()).collect();
    assert_eq!(names, vec!["A", "C"]);
    assert!(dungeon.find_path("B", "A").unwrap().is_some());
}

#[test]
fn self_link_gives_both_directions() {
    let mut dungeon = Dungeon::new();
    dungeon.add_room("Loop").unwrap();
    dungeon.set_link("Loop", Direction::North, "Loop").unwrap();
    assert_eq!(dungeon.get_next_room("Loop", Direction::North).unwrap().unwrap().name, "Loop");
    assert_eq!(dungeon.get_next_room("Loop", Direction::South).unwrap().unwrap().name, "Loop");
    assert_eq!(dungeon.rooms[0].neighbors.len(), 2);
}

#[test]
fn room_names_keep_spaces_verbatim() {
    let text = "## Rooms\n- Great Hall \n\n## Links\n";
    let dungeon = Dungeon::from_reader(text.as_bytes()).unwrap();
    assert!(dungeon.get_room("Great Hall").is_err());
    assert_eq!(dungeon.get_room("Great Hall ").unwrap().name, "Great Hall ");
}
