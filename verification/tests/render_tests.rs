use dungeon::render::Room;

#[test]
fn test_full_test_basic() {
    let room = Room {
        name: String::from("Living Room"),
        north: String::from("Balcony"),
        south: String::from("Bathroom"),
        east: String::from("Kitchen"),
        west: String::from("Entrance"),
    };

    let expected = "
           [   Balcony   ]
                  |
           +------N------+
Entrance - | Living Room | - Kitchen
           +------S------+
                  |
           [  Bathroom   ]";

    assert_eq!(room.render(), expected);
}

#[test]
fn test_another() {
    let room = Room {
        name: String::from("Office"),
        north: String::from("Garage"),
        south: String::from("Hall"),
        east: String::from("Study"),
        west: String::from("Room"),
    };

    let expected = "
       [ Garage  ]
            |
       +----N----+
Room - | Office  | - Study
       +----S----+
            |
       [  Hall   ]";

    assert_eq!(room.render(), expected);
}

#[test]
fn lib_test_short() {
    let room = Room {
        name: String::from("X"),
        north: String::from("N"),
        south: String::from("S"),
        east: String::from("E"),
        west: String::from("W"),
    };

    let expected = "
    [ N ]
      |
    +-N-+
W - | X | - E
    +-S-+
      |
    [ S ]";

    assert_eq!(room.render(), expected);
}

#[test]
fn test_full_test_short() {
    let room = Room {
        name: String::from("X"),
        north: String::from("N"),
        south: String::from("S"),
        east: String::from("E"),
        west: String::from("W"),
    };

    let expected = "
    [ N ]
      |
    +-N-+
W - | X | - E
    +-S-+
      |
    [ S ]";

    assert_eq!(room.render(), expected);
}
