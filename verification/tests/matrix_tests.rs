use dungeon::Matrix;
use dungeon::cells;

fn collect_rows<T: Clone>(matrix: &Matrix<T>) -> Vec<T> {
    let mut it = matrix.by_row();
    let mut out = Vec::new();
    while let Some(x) = it.next() {
        out.push(x.clone());
    }
    out
}

fn collect_cols<T: Clone>(matrix: &Matrix<T>) -> Vec<T> {
    let mut it = matrix.by_col();
    let mut out = Vec::new();
    while let Some(x) = it.next() {
        out.push(x.clone());
    }
    out
}

#[test]
fn test_iteration_0() {
    let data = [1, 2,
        3, 4];
    let matrix = Matrix::new(2, 2, &data);

    assert_eq!(collect_rows(&matrix), vec![1, 2, 3, 4]);
    assert_eq!(collect_cols(&matrix), vec![1, 3, 2, 4]);
}

#[test]
fn test_iteration_1() {
    let data = [1, 2,
                3, 4,
                5, 6];
    let matrix = Matrix::new(3, 2, &data);

    assert_eq!(collect_rows(&matrix), vec![1, 2, 3, 4, 5, 6]);
    assert_eq!(collect_cols(&matrix), vec![1, 3, 5, 2, 4, 6]);
}

#[test]
fn test_iteration_2() {
    let data = [1, 2, 3,
                4, 5, 6];
    let matrix = Matrix::new(2, 3, &data);

    assert_eq!(collect_rows(&matrix), vec![1, 2, 3, 4, 5, 6]);
    assert_eq!(collect_cols(&matrix), vec![1, 4, 2, 5, 3, 6]);
}

#[test]
fn test_iteration_3() {
    let data = ["1", "2", "3",
                "4", "5", "6",
                "7", "8", "9"];
    let matrix = Matrix::new(3, 3, &data);

    assert_eq!(
        collect_rows(&matrix),
        vec!["1", "2", "3", "4", "5", "6", "7", "8", "9"]
    );
    assert_eq!(
        collect_cols(&matrix),
        vec!["1", "4", "7", "2", "5", "8", "3", "6", "9"]
    );
}

#[test]
fn iteration_ends_with_none() {
    let data = [5];
    let matrix = Matrix::new(1, 1, &data);
    let mut it = matrix.by_row();
    assert_eq!(it.next(), Some(&5));
    assert_eq!(it.next(), None);
    assert_eq!(it.next(), None);
}

#[test]
fn cell_matrix_orders() {
    let matrix = cells::Matrix::new(&[1, 2, 3, 4]);
    assert_eq!(matrix.by_row(), vec![cells::Cell(1), cells::Cell(2), cells::Cell(3), cells::Cell(4)]);
    assert_eq!(matrix.by_col(), vec![cells::Cell(1), cells::Cell(3), cells::Cell(2), cells::Cell(4)]);
}

#[test]
fn cell_matrix_of_strings() {
    let matrix = cells::Matrix::new(&[
        String::from("a"),
        String::from("b"),
        String::from("c"),
        String::from("d"),
    ]);
    assert_eq!(matrix.by_row()[3], cells::Cell(String::from("d")));
    assert_eq!(matrix.by_col()[1], cells::Cell(String::from("c")));
}

#[test]
fn cell_arithmetic() {
    assert_eq!(cells::Cell(3).add(cells::Cell(String::from("ab"))).0, "3 ab");
    assert_eq!(cells::Cell(-2).add(cells::Cell(String::from("ab"))).0, "ba 2");
    assert_eq!(cells::Cell(0).add(cells::Cell(String::from("x"))).0, "0 x");
    assert_eq!(cells::Cell(3).mul(cells::Cell(String::from("ab"))).0, "ababab");
    assert_eq!(cells::Cell(-2).mul(cells::Cell(String::from("ab"))).0, "baba");
    assert_eq!(cells::Cell(0).mul(cells::Cell(String::from("ab"))).0, "");
}

#[test]
fn matrix_arithmetic() {
    let nums = cells::Matrix::new(&[1, -2, 0, 3]);
    let texts = cells::Matrix::new(&[
        String::from("ab"),
        String::from("cd"),
        String::from("ef"),
        String::from("gh"),
    ]);
    let sum = nums.add(texts);
    let row_texts: Vec<String> = sum.by_row().iter().map(|c| c.0.clone()).collect();
    assert_eq!(row_texts, vec!["1 ab", "dc 2", "0 ef", "3 gh"]);

    let nums = cells::Matrix::new(&[1, -2, 0, 3]);
    let texts = cells::Matrix::new(&[
        String::from("ab"),
        String::from("cd"),
        String::from("ef"),
        String::from("gh"),
    ]);
    // Rows of numbers pair with same-numbered columns of texts:
    // [1, -2] against [ab, ef], then [0, 3] against [cd, gh].
    assert_eq!(nums.mul(texts), "ab fefe  ghghgh");
}
