use bible_app::selection::Selection;
use bible_app::store::{Book, Database, StoreError, Verse};

fn book(id: i64, name: &str) -> Book {
    Book { id, name: name.to_owned(), num_chapters: 0 }
}

fn verse(book: i8, chapter: i8, number: i8, text: &str) -> Verse {
    Verse { number, chapter, book, text: text.to_owned() }
}

/// The store of the walk-through scenario: Genesis (id 1) with two verses in
/// chapter 1 and one verse in chapter 2.
fn genesis_db() -> Database {
    let books = vec![book(1, "Genesis")];
    let verses = vec![
        verse(1, 1, 1, "T1"),
        verse(1, 1, 2, "T2"),
        verse(1, 2, 1, "T3"),
    ];
    Database::new(books, verses)
}

fn texts(verses: &[Verse]) -> Vec<String> {
    verses.iter().map(|v| v.text.clone()).collect()
}

#[test]
fn select_book_loads_first_chapter() {
    let db = genesis_db();
    let mut sel = Selection::startup(&db).unwrap();
    let r = sel.select_book(&db, &book(1, ""));
    assert!(r.is_ok());
    assert_eq!(sel.book.name, "Genesis");
    assert_eq!(sel.book.num_chapters, 2);
    assert_eq!(sel.chapter, 1);
    assert_eq!(texts(&sel.verses), vec!["T1".to_owned(), "T2".to_owned()]);
}

#[test]
fn select_chapter_reloads_verses() {
    let db = genesis_db();
    let mut sel = Selection::startup(&db).unwrap();
    sel.select_chapter(&db, 2);
    assert_eq!(sel.chapter, 2);
    assert_eq!(sel.book.name, "Genesis");
    assert_eq!(texts(&sel.verses), vec!["T3".to_owned()]);
}

#[test]
fn startup_is_book_one_chapter_one() {
    let db = genesis_db();
    let sel = Selection::startup(&db).unwrap();
    assert_eq!(sel.book.id, 1);
    assert_eq!(sel.book.name, "Genesis");
    assert_eq!(sel.book.num_chapters, 2);
    assert_eq!(sel.chapter, 1);
    assert_eq!(texts(&sel.verses), vec!["T1".to_owned(), "T2".to_owned()]);
}

#[test]
fn lookup_of_missing_id_is_an_explicit_not_found() {
    let db = genesis_db();
    match db.get_book(&9999) {
        Err(StoreError::BookNotFound) => {}
        other => panic!("expected BookNotFound, got {:?}", other.map(|b| b.id)),
    }
}

#[test]
fn select_book_of_missing_id_leaves_selection_unchanged() {
    let db = genesis_db();
    let mut sel = Selection::startup(&db).unwrap();
    let r = sel.select_book(&db, &book(9999, ""));
    assert_eq!(r, Err(StoreError::BookNotFound));
    assert_eq!(sel.book.id, 1);
    assert_eq!(sel.chapter, 1);
    assert_eq!(texts(&sel.verses), vec!["T1".to_owned(), "T2".to_owned()]);
}

#[test]
fn select_book_without_verses_is_an_explicit_error() {
    let books = vec![book(1, "Genesis"), book(2, "Empty")];
    let verses = vec![verse(1, 1, 1, "T1")];
    let db = Database::new(books, verses);
    let mut sel = Selection::startup(&db).unwrap();
    let r = sel.select_book(&db, &book(2, ""));
    assert_eq!(r, Err(StoreError::NoVerses));
    assert_eq!(sel.book.id, 1);
}

#[test]
fn get_book_returns_matching_id_and_name_for_every_catalog_entry() {
    let books = vec![book(1, "Genesis"), book(2, "Exodus"), book(3, "Leviticus")];
    let db = Database::new(books, Vec::new());
    for b in db.get_books() {
        let fetched = db.get_book(&b.id).unwrap();
        assert_eq!(fetched.id, b.id);
        assert_eq!(fetched.name, b.name);
        assert_eq!(fetched.num_chapters, 0);
    }
}

#[test]
fn get_books_returns_the_catalog_in_stored_order() {
    let books = vec![book(7, "Judges"), book(1, "Genesis")];
    let db = Database::new(books, Vec::new());
    let out = db.get_books();
    assert_eq!(out.len(), 2);
    assert_eq!(out[0].id, 7);
    assert_eq!(out[0].name, "Judges");
    assert_eq!(out[1].id, 1);
    assert_eq!(out[1].name, "Genesis");
}

#[test]
fn get_verses_sorts_by_ascending_number() {
    let books = vec![book(1, "Genesis")];
    let verses = vec![
        verse(1, 1, 3, "third"),
        verse(1, 1, 1, "first"),
        verse(1, 2, 9, "other chapter"),
        verse(2, 1, 5, "other book"),
        verse(1, 1, 2, "second"),
    ];
    let db = Database::new(books, verses);
    let out = db.get_verses(1, &book(1, "Genesis"));
    let numbers: Vec<i8> = out.iter().map(|v| v.number).collect();
    assert_eq!(numbers, vec![1, 2, 3]);
    assert_eq!(
        texts(&out),
        vec!["first".to_owned(), "second".to_owned(), "third".to_owned()]
    );
    for v in &out {
        assert_eq!(v.book, 1);
        assert_eq!(v.chapter, 1);
    }
}

#[test]
fn get_verses_of_an_empty_chapter_is_empty() {
    let db = genesis_db();
    let out = db.get_verses(3, &book(1, "Genesis"));
    assert!(out.is_empty());
}

#[test]
fn get_chapters_is_the_maximum_chapter() {
    let books = vec![book(1, "Genesis")];
    let verses = vec![
        verse(1, 1, 1, "a"),
        verse(1, 3, 1, "b"),
        verse(1, 2, 1, "c"),
        verse(2, 9, 1, "other book"),
    ];
    let db = Database::new(books, verses);
    assert_eq!(db.get_chapters(&1), Ok(3));
}

#[test]
fn get_chapters_without_rows_is_an_explicit_error() {
    let db = Database::new(vec![book(1, "Genesis")], Vec::new());
    assert_eq!(db.get_chapters(&1), Err(StoreError::NoVerses));
}

#[test]
fn select_chapter_one_after_select_book_changes_nothing() {
    let db = genesis_db();
    let mut once = Selection::startup(&db).unwrap();
    once.select_book(&db, &book(1, "")).unwrap();
    let mut twice = Selection::startup(&db).unwrap();
    twice.select_book(&db, &book(1, "")).unwrap();
    twice.select_chapter(&db, 1);
    assert_eq!(once.book.id, twice.book.id);
    assert_eq!(once.book.name, twice.book.name);
    assert_eq!(once.book.num_chapters, twice.book.num_chapters);
    assert_eq!(once.chapter, twice.chapter);
    assert_eq!(texts(&once.verses), texts(&twice.verses));
    let once_numbers: Vec<i8> = once.verses.iter().map(|v| v.number).collect();
    let twice_numbers: Vec<i8> = twice.verses.iter().map(|v| v.number).collect();
    assert_eq!(once_numbers, twice_numbers);
}

#[test]
fn selection_new_keeps_its_parts() {
    let verses = vec![verse(1, 1, 1, "T1")];
    let sel = Selection::new(book(1, "Genesis"), 1, verses);
    assert_eq!(sel.book.id, 1);
    assert_eq!(sel.book.name, "Genesis");
    assert_eq!(sel.chapter, 1);
    assert_eq!(sel.verses.len(), 1);
    assert_eq!(sel.verses[0].text, "T1");
}

#[test]
fn book_equality_is_by_id_only() {
    assert!(book(1, "Genesis") == book(1, "Exodus"));
    assert!(book(1, "Genesis") != book(2, "Genesis"));
}

#[test]
fn duplicates_copy_every_field() {
    let b = Book { id: 4, name: "Numbers".to_owned(), num_chapters: 36 };
    let c = b.duplicate();
    assert_eq!(c.id, 4);
    assert_eq!(c.name, "Numbers");
    assert_eq!(c.num_chapters, 36);
    let v = verse(1, 2, 3, "text");
    let w = v.duplicate();
    assert_eq!(w.book, 1);
    assert_eq!(w.chapter, 2);
    assert_eq!(w.number, 3);
    assert_eq!(w.text, "text");
}

#[test]
fn first_book_row_wins_on_duplicate_ids() {
    let books = vec![book(5, "First"), book(5, "Second")];
    let db = Database::new(books, Vec::new());
    let fetched = db.get_book(&5).unwrap();
    assert_eq!(fetched.name, "First");
}
