use rusty_heap_alloc::chunk::Chunk;
use rusty_heap_alloc::table::{
    cell, chunk_line, decimal, header, padding, render, status, width_of_column, Row, COLUMNS,
    MARGIN,
};
use rusty_heap_alloc::Heap;

fn text(chars: Vec<char>) -> String {
    chars.into_iter().collect()
}

fn lines(rows: &Vec<Row>) -> Vec<String> {
    render(rows).into_iter().map(text).collect()
}

#[test]
fn rows_list_the_chunks_in_address_order() {
    let mut heap = Heap::init(Some(100)).unwrap();
    heap.allocate(25).unwrap();
    assert_eq!(
        heap.rows(),
        vec![
            Row { id: 1, addr: 0, size: 25, in_use: true },
            Row { id: 2, addr: 25, size: 75, in_use: false },
        ]
    );
    assert_eq!(Heap::default().rows(), Vec::new());
}

#[test]
fn decimal_writes_the_digits() {
    assert_eq!(text(decimal(0)), "0");
    assert_eq!(text(decimal(7)), "7");
    assert_eq!(text(decimal(10)), "10");
    assert_eq!(text(decimal(99)), "99");
    assert_eq!(text(decimal(100)), "100");
    assert_eq!(text(decimal(1234567890)), "1234567890");
    assert_eq!(text(decimal(usize::MAX)), usize::MAX.to_string());
}

#[test]
fn cell_holds_the_text_of_its_column() {
    let row = Row { id: 12, addr: 1000, size: 7, in_use: true };
    assert_eq!(text(cell(&row, 0)), "12");
    assert_eq!(text(cell(&row, 1)), "1000");
    assert_eq!(text(cell(&row, 2)), "7");
    assert_eq!(text(cell(&row, 3)), "IN USE");
    let free = Row { in_use: false, ..row };
    assert_eq!(text(cell(&free, 3)), "FREE");
}

#[test]
fn headers_and_status_texts() {
    assert_eq!(
        [header(0), header(1), header(2), header(3)],
        ["Chunk ID", "Address", "Size (bytes)", "Usage Status"]
    );
    assert_eq!(status(true), "IN USE");
    assert_eq!(status(false), "FREE");
}

#[test]
fn column_is_as_wide_as_header_and_margin() {
    let rows = vec![Row { id: 1, addr: 0, size: 10, in_use: false }];
    assert_eq!(width_of_column(&rows, 0), 10);
    assert_eq!(width_of_column(&rows, 1), 9);
    assert_eq!(width_of_column(&rows, 2), 14);
    assert_eq!(width_of_column(&rows, 3), 14);
    assert_eq!(width_of_column(&Vec::new(), 1), 9);
    for column in 0..COLUMNS {
        assert_eq!(width_of_column(&rows, column), header(column).len() + MARGIN);
    }
}

#[test]
fn column_widens_for_a_longer_text() {
    let rows = vec![
        Row { id: 1, addr: 0, size: 10, in_use: false },
        Row { id: 2, addr: 12_345_678_901, size: 10, in_use: true },
        Row { id: 3, addr: 5, size: 10, in_use: true },
    ];
    assert_eq!(width_of_column(&rows, 1), 11 + 2);
    assert_eq!(width_of_column(&rows, 0), 10);
}

#[test]
fn padding_centres_and_puts_the_odd_blank_behind() {
    assert_eq!(padding(10, 4), (3, 3));
    assert_eq!(padding(12, 3), (4, 5));
    assert_eq!(padding(5, 5), (0, 0));
    assert_eq!(padding(6, 5), (0, 1));
    assert_eq!(padding(3, 5), (0, 0));
}

#[test]
fn table_of_a_heap_with_one_allocation() {
    let mut heap = Heap::init(Some(100)).unwrap();
    heap.allocate(25).unwrap();
    assert_eq!(
        lines(&heap.rows()),
        vec![
            "+----------+---------+--------------+--------------+",
            "| Chunk ID | Address | Size (bytes) | Usage Status |",
            "+----------+---------+--------------+--------------+",
            "|    1     |    0    |      25      |    IN USE    |",
            "+----------+---------+--------------+--------------+",
            "|    2     |   25    |      75      |     FREE     |",
            "+----------+---------+--------------+--------------+",
        ]
    );
}

#[test]
fn table_of_an_empty_heap_has_only_the_header() {
    assert_eq!(
        lines(&Heap::default().rows()),
        vec![
            "+----------+---------+--------------+--------------+",
            "| Chunk ID | Address | Size (bytes) | Usage Status |",
            "+----------+---------+--------------+--------------+",
        ]
    );
}

#[test]
fn table_widens_a_column_only_for_a_text_that_is_longer() {
    // fourteen digits are more than the address column holds, and just what
    // the size column holds
    let rows = vec![
        Row { id: 1, addr: 0, size: 12_345_678_901_234, in_use: true },
        Row { id: 2, addr: 12_345_678_901_234, size: 1, in_use: false },
    ];
    assert_eq!(
        lines(&rows),
        vec![
            "+----------+----------------+--------------+--------------+",
            "| Chunk ID |    Address     | Size (bytes) | Usage Status |",
            "+----------+----------------+--------------+--------------+",
            "|    1     |       0        |12345678901234|    IN USE    |",
            "+----------+----------------+--------------+--------------+",
            "|    2     | 12345678901234 |      1       |     FREE     |",
            "+----------+----------------+--------------+--------------+",
        ]
    );
}

#[test]
fn no_text_is_longer_than_its_column() {
    let mut heap = Heap::init(Some(100_000)).unwrap();
    heap.allocate(12_345).unwrap();
    heap.allocate(7).unwrap();
    let rows = heap.rows();
    let table = lines(&rows);
    assert_eq!(table.len(), 3 + 2 * rows.len());
    for column in 0..COLUMNS {
        let width = width_of_column(&rows, column);
        assert!(width >= header(column).len() + MARGIN);
        for row in &rows {
            let len = cell(row, column).len();
            assert!(len <= width);
            let (before, behind) = padding(width, len);
            assert_eq!(before + len + behind, width);
        }
    }
    for line in &table {
        assert_eq!(line.len(), table[0].len());
    }
}

#[test]
fn chunk_line_names_address_and_size() {
    let c = Chunk::new(16, None).unwrap();
    assert_eq!(text(chunk_line(&c)), "Chunk [Address: 0] ==> 16 bytes");
    let mut heap = Heap::init(Some(1000)).unwrap();
    heap.allocate(120).unwrap();
    assert_eq!(
        text(chunk_line(heap.chunk(1).unwrap())),
        "Chunk [Address: 120] ==> 880 bytes"
    );
}
