use birthday_book::book::DateBook;
use birthday_book::date::{Date, DateError};
use birthday_book::file::{get_dates, read_line, LineError, LoadError};

fn load(text: &str) -> Result<DateBook, LoadError> {
    get_dates(text.to_string())
}

fn load_error(text: &str) -> LoadError {
    match load(text) {
        Ok(_) => panic!("the text was read as a book"),
        Err(e) => e,
    }
}

fn book_of(records: &[(&str, Date)]) -> DateBook {
    let mut book = DateBook::new();
    for (name, date) in records {
        book.insert(name.to_string(), *date);
    }
    book
}

fn same_books(a: &DateBook, b: &DateBook) -> bool {
    if a.len() != b.len() {
        return false;
    }
    for i in 0..a.len() {
        if b.get(a.name_at(i)) != Some(a.date_at(i)) {
            return false;
        }
    }
    true
}

#[test]
fn one_line_gives_one_record() {
    let book = load("Alice -> 3/4/2000\n").unwrap();
    assert_eq!(book.len(), 1);
    let date = book.get(&"Alice".to_string()).unwrap();
    assert_eq!(date.format(), "3/4/2000");
    assert_eq!(date, Date::new(4, 3, 2000));
}

#[test]
fn an_empty_text_gives_an_empty_book() {
    let book = load("").unwrap();
    assert_eq!(book.len(), 0);
    assert!(book.is_empty());
    assert!(book.lines().is_empty());
    assert_eq!(book.to_text(), "");
}

#[test]
fn the_empty_book_is_empty() {
    let book = DateBook::new();
    assert!(book.is_empty());
    assert_eq!(book.len(), 0);
    assert_eq!(book.get(&"Alice".to_string()), None);
    assert_eq!(book.find_name_by_date(&Date::new(1, 1, 1)), None);
}

#[test]
fn the_last_line_needs_no_line_feed() {
    let book = load("Alice -> 3/4/2000\nBob -> 12/25/1990").unwrap();
    assert_eq!(book.len(), 2);
    assert_eq!(book.get(&"Bob".to_string()), Some(Date::new(25, 12, 1990)));
}

#[test]
fn white_space_around_name_and_date_is_dropped() {
    let book = load("  Alice Smith \t->\t 3/4/2000  \n\u{a0}Bob\u{2003}->\u{3000}1/2/3\u{2028}\n").unwrap();
    assert_eq!(book.len(), 2);
    assert_eq!(book.get(&"Alice Smith".to_string()), Some(Date::new(4, 3, 2000)));
    assert_eq!(book.get(&"Bob".to_string()), Some(Date::new(2, 1, 3)));
    assert_eq!(book.name_at(0), "Alice Smith");
}

#[test]
fn no_space_is_needed_around_the_arrow() {
    let book = load("Alice->3/4/2000\n").unwrap();
    assert_eq!(book.get(&"Alice".to_string()), Some(Date::new(4, 3, 2000)));
}

#[test]
fn carriage_returns_before_line_feeds_are_dropped() {
    let book = load("Alice -> 3/4/2000\r\n\r\nBob -> 1/2/3\r\n").unwrap();
    assert_eq!(book.len(), 2);
    assert_eq!(book.get(&"Alice".to_string()), Some(Date::new(4, 3, 2000)));
    assert_eq!(book.get(&"Bob".to_string()), Some(Date::new(2, 1, 3)));
}

#[test]
fn empty_lines_are_passed_over() {
    let book = load("\n\nAlice -> 3/4/2000\n\n\nBob -> 1/2/3\n\n").unwrap();
    assert_eq!(book.len(), 2);
    assert!(load("\n").unwrap().is_empty());
    assert!(load("\n\n\n").unwrap().is_empty());
    assert!(load("\r\n").unwrap().is_empty());
}

#[test]
fn a_line_of_white_space_is_no_record() {
    assert_eq!(load_error("   \n"), LoadError { line: 1, kind: LineError::MissingDelimiter });
    assert_eq!(load_error("\r"), LoadError { line: 1, kind: LineError::MissingDelimiter });
}

#[test]
fn a_later_line_for_a_name_replaces_the_earlier_one() {
    let book = load("Alice -> 3/4/2000\nBob -> 1/2/3\nAlice -> 5/6/2001\n").unwrap();
    assert_eq!(book.len(), 2);
    assert_eq!(book.get(&"Alice".to_string()), Some(Date::new(6, 5, 2001)));
    assert_eq!(book.name_at(0), "Alice");
    assert_eq!(book.name_at(1), "Bob");
}

#[test]
fn the_name_may_be_empty() {
    let book = load(" -> 1/2/3\n").unwrap();
    assert_eq!(book.len(), 1);
    assert_eq!(book.get(&String::new()), Some(Date::new(2, 1, 3)));
    assert_eq!(book.to_text(), " -> 1/2/3\n");
}

#[test]
fn names_are_read_by_characters_not_bytes() {
    let book = load("Zoë Müller -> 1/2/3\n李雷 -> 4/5/6\n").unwrap();
    assert_eq!(book.get(&"Zoë Müller".to_string()), Some(Date::new(2, 1, 3)));
    assert_eq!(book.get(&"李雷".to_string()), Some(Date::new(5, 4, 6)));
    assert_eq!(book.to_text(), "Zoë Müller -> 1/2/3\n李雷 -> 4/5/6\n");
}

#[test]
fn a_line_without_arrow_is_an_error() {
    assert_eq!(load_error("Alice 3/4/2000\n"), LoadError { line: 1, kind: LineError::MissingDelimiter });
    assert_eq!(load_error("Alice - > 3/4/2000\n"), LoadError { line: 1, kind: LineError::MissingDelimiter });
    assert_eq!(load_error("Alice >- 3/4/2000\n"), LoadError { line: 1, kind: LineError::MissingDelimiter });
    assert_eq!(load_error("-"), LoadError { line: 1, kind: LineError::MissingDelimiter });
}

#[test]
fn a_line_with_a_bad_date_is_an_error() {
    assert_eq!(
        load_error("Alice -> 3/4\n"),
        LoadError { line: 1, kind: LineError::BadDate(DateError::MissingSegment) }
    );
    assert_eq!(
        load_error("Alice -> 3/x/2000\n"),
        LoadError { line: 1, kind: LineError::BadDate(DateError::InvalidNumber) }
    );
    assert_eq!(
        load_error("Alice ->\n"),
        LoadError { line: 1, kind: LineError::BadDate(DateError::MissingSegment) }
    );
    assert_eq!(
        load_error("Alice -> 1/2/3/4\n"),
        LoadError { line: 1, kind: LineError::BadDate(DateError::InvalidNumber) }
    );
}

#[test]
fn the_line_is_cut_at_the_first_arrow_only() {
    assert_eq!(
        load_error("Alice -> 1/2/3 -> Bob\n"),
        LoadError { line: 1, kind: LineError::BadDate(DateError::InvalidNumber) }
    );
    assert_eq!(
        load_error("a->b -> 1/2/3\n"),
        LoadError { line: 1, kind: LineError::BadDate(DateError::InvalidNumber) }
    );
}

#[test]
fn the_error_names_the_first_bad_line() {
    let text = "Alice -> 3/4/2000\n\nBob 1/2/3\nCarol -> x\n";
    assert_eq!(load_error(text), LoadError { line: 3, kind: LineError::MissingDelimiter });
    let text = "Alice -> 3/4/2000\nBob -> 1/2/3\nCarol -> 1/2/x";
    assert_eq!(
        load_error(text),
        LoadError { line: 3, kind: LineError::BadDate(DateError::InvalidNumber) }
    );
}

#[test]
fn one_bad_line_fails_the_whole_text() {
    assert!(load("Alice -> 3/4/2000\nnonsense\nBob -> 1/2/3\n").is_err());
}

#[test]
fn read_line_gives_where_the_name_stands() {
    let line: Vec<char> = "  Al  -> 3/4/2000 ".chars().collect();
    assert_eq!(read_line(&line), Ok((2, 4, Date::new(4, 3, 2000))));
    let line: Vec<char> = "->1/1/1".chars().collect();
    assert_eq!(read_line(&line), Ok((0, 0, Date::new(1, 1, 1))));
    let line: Vec<char> = "Al".chars().collect();
    assert_eq!(read_line(&line), Err(LineError::MissingDelimiter));
    let line: Vec<char> = "Al -> soon".chars().collect();
    assert_eq!(read_line(&line), Err(LineError::BadDate(DateError::MissingSegment)));
}

#[test]
fn to_text_writes_one_line_for_each_record() {
    let book = book_of(&[("Alice", Date::new(4, 3, 2000)), ("Bob", Date::new(25, 12, 1990))]);
    assert_eq!(book.to_text(), "Alice -> 3/4/2000\nBob -> 12/25/1990\n");
}

#[test]
fn lines_show_each_record() {
    let book = book_of(&[("Alice", Date::new(4, 3, 2000)), ("Bob", Date::new(25, 12, 1990))]);
    assert_eq!(book.lines(), vec!["Alice <--> 3/4/2000".to_string(), "Bob <--> 12/25/1990".to_string()]);
}

#[test]
fn writing_and_reading_gives_the_same_book() {
    let book = book_of(&[
        ("Alice", Date::new(4, 3, 2000)),
        ("Bob", Date::new(25, 12, 1990)),
        ("Carol Ann", Date::new(1, 1, 2001)),
        ("", Date::new(0, 0, 0)),
        ("d-e>f", Date::new(40, 13, 1999)),
        ("Zoë", Date::new(u32::MAX, u32::MAX, u32::MAX)),
    ]);
    let again = load(&book.to_text()).unwrap();
    assert!(same_books(&book, &again));
    assert!(same_books(&again, &book));
    assert_eq!(again.to_text(), book.to_text());
}

#[test]
fn reading_and_writing_gives_the_same_book_whatever_the_order() {
    let one = load("Alice -> 3/4/2000\nBob -> 12/25/1990\n").unwrap();
    let other = load("Bob -> 12/25/1990\nAlice -> 3/4/2000\n").unwrap();
    assert!(same_books(&one, &other));
    assert!(same_books(&load(&one.to_text()).unwrap(), &load(&other.to_text()).unwrap()));
}

#[test]
fn a_name_with_an_arrow_is_not_read_back() {
    let book = book_of(&[("a->b", Date::new(1, 1, 1))]);
    assert!(load(&book.to_text()).is_err());
    let book = book_of(&[(" Alice", Date::new(1, 1, 1))]);
    let again = load(&book.to_text()).unwrap();
    assert_eq!(again.get(&" Alice".to_string()), None);
    assert_eq!(again.get(&"Alice".to_string()), Some(Date::new(1, 1, 1)));
}

#[test]
fn insert_adds_a_record() {
    let mut book = DateBook::new();
    book.insert("Bob".to_string(), Date::new(25, 12, 1990));
    assert_eq!(book.len(), 1);
    assert!(!book.is_empty());
    assert_eq!(book.get(&"Bob".to_string()), Some(Date::new(25, 12, 1990)));
    assert_eq!(book.get(&"bob".to_string()), None);
    assert_eq!(book.get(&"Bo".to_string()), None);
    assert_eq!(book.name_at(0), "Bob");
    assert_eq!(book.date_at(0), Date::new(25, 12, 1990));
}

#[test]
fn inserting_a_name_twice_keeps_the_second_date() {
    let mut book = book_of(&[("Alice", Date::new(4, 3, 2000)), ("Bob", Date::new(1, 1, 1))]);
    book.insert("Alice".to_string(), Date::new(5, 6, 2001));
    book.insert("Alice".to_string(), Date::new(7, 8, 2002));
    assert_eq!(book.len(), 2);
    assert_eq!(book.get(&"Alice".to_string()), Some(Date::new(7, 8, 2002)));
    assert_eq!(book.get(&"Bob".to_string()), Some(Date::new(1, 1, 1)));
    assert_eq!(book.find_name_by_date(&Date::new(4, 3, 2000)), None);
    assert_eq!(book.find_name_by_date(&Date::new(5, 6, 2001)), None);
    assert_eq!(book.to_text(), "Alice -> 8/7/2002\nBob -> 1/1/1\n");
}

#[test]
fn find_name_by_date_reports_a_missing_date() {
    let book = book_of(&[("Carol", Date::new(1, 1, 2001))]);
    assert_eq!(book.find_name_by_date(&Date::new(2, 2, 2002)), None);
    assert_eq!(book.find_name_by_date(&Date::new(1, 1, 2002)), None);
}

#[test]
fn find_name_by_date_returns_the_one_match() {
    let book = book_of(&[
        ("Alice", Date::new(4, 3, 2000)),
        ("Carol", Date::new(1, 1, 2001)),
        ("Bob", Date::new(25, 12, 1990)),
    ]);
    assert_eq!(book.find_name_by_date(&Date::new(1, 1, 2001)), Some("Carol".to_string()));
    assert_eq!(book.find_name_by_date(&Date::new(4, 3, 2000)), Some("Alice".to_string()));
    assert_eq!(book.find_name_by_date(&Date::new(25, 12, 1990)), Some("Bob".to_string()));
}

#[test]
fn find_name_by_date_returns_the_last_of_several() {
    let book = book_of(&[
        ("Alice", Date::new(1, 1, 2001)),
        ("Bob", Date::new(2, 2, 2002)),
        ("Carol", Date::new(1, 1, 2001)),
        ("Dan", Date::new(3, 3, 2003)),
    ]);
    assert_eq!(book.find_name_by_date(&Date::new(1, 1, 2001)), Some("Carol".to_string()));
}
