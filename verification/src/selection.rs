//! Selection state: which book, which chapter, and the resolved verse list
//! for that pair. Mutated only by `select_book` and `select_chapter`, each of
//! which re-runs the relevant store queries synchronously and replaces the
//! state wholesale.

use vstd::prelude::*;
use crate::store::{
    Book, BookView, Verse, VerseView, Database, DatabaseView, StoreError, book_lookup,
    max_chapter_of, matching_verses, sort_by_number, sorted_by_number, lemma_max_chapter_spec,
    lemma_sort_by_number_props, lemma_book_lookup_found,
};

verus! {

/// The chapter numbers of stored rows are small integers: a maximum over
/// them stays in range of the row field itself.
proof fn lemma_max_chapter_in_range(db: &Database, id: int)
    requires
        max_chapter_of(db@.verses, id) is Some,
    ensures
        -128 <= max_chapter_of(db@.verses, id)->Some_0 <= 127,
{
    lemma_max_chapter_spec(db@.verses, id);
    let m = max_chapter_of(db@.verses, id)->Some_0;
    let i = choose|i: int|
        0 <= i < db@.verses.len() && #[trigger] db@.verses[i].book == id && db@.verses[i].chapter
            == m;
    assert(db@.verses[i] == db.verses@[i]@);
}

/// The complete UI-relevant state: which book (with its refreshed chapter
/// count), which chapter, and the resolved verse list for that pair.
pub struct Selection {
    pub book: Book,
    pub chapter: i64,
    pub verses: Vec<Verse>,
}

/// Mathematical image of a `Selection`.
#[verifier::ext_equal]
pub struct SelectionView {
    pub book: BookView,
    pub chapter: int,
    pub verses: Seq<VerseView>,
}

impl View for Selection {
    type V = SelectionView;

    open spec fn view(&self) -> SelectionView {
        SelectionView {
            book: self.book@,
            chapter: self.chapter as int,
            verses: self.verses.deep_view(),
        }
    }
}

/// The selection that a successful book choice yields: the chosen book with
/// its chapter count refreshed, the chapter reset to one, and the verses of
/// the first chapter, by ascending number.
pub open spec fn loaded_selection(db: DatabaseView, id: int) -> SelectionView
    recommends
        book_lookup(db.books, id) is Some,
        max_chapter_of(db.verses, id) is Some,
{
    let b = book_lookup(db.books, id)->Some_0;
    let m = max_chapter_of(db.verses, id)->Some_0;
    SelectionView {
        book: BookView { id: b.id, name: b.name, num_chapters: m },
        chapter: 1,
        verses: sort_by_number(matching_verses(db.verses, b.id, 1)),
    }
}

/// What a book choice does to a selection: the result of the operation and
/// the selection it leaves behind. A failed lookup leaves the selection
/// untouched.
pub open spec fn after_select_book(db: DatabaseView, s: SelectionView, id: int) -> (Result<
    (),
    StoreError,
>, SelectionView) {
    if book_lookup(db.books, id) is None {
        (Err(StoreError::BookNotFound), s)
    } else if max_chapter_of(db.verses, id) is None {
        (Err(StoreError::NoVerses), s)
    } else {
        (Ok(()), loaded_selection(db, id))
    }
}

/// What a chapter choice does to a selection: the book stays, the chapter is
/// set, and the verses of the new (book, chapter) pair are reloaded.
pub open spec fn after_select_chapter(db: DatabaseView, s: SelectionView, chapter: int)
    -> SelectionView {
    SelectionView {
        book: s.book,
        chapter,
        verses: sort_by_number(matching_verses(db.verses, s.book.id, chapter)),
    }
}

impl Selection {
    /// Bundles a selection from its parts.
    pub fn new(book: Book, chapter: i64, verses: Vec<Verse>) -> (r: Self)
        ensures
            r@ == (SelectionView {
                book: book@,
                chapter: chapter as int,
                verses: verses.deep_view(),
            }),
    {
        Self { book, chapter, verses }
    }

    /// Atomically replace the selection with the given book: the book row is
    /// re-fetched, its chapter count recomputed, the chapter reset to one and
    /// the verse list reloaded. On failure the selection is unchanged.
    pub fn select_book(&mut self, db: &Database, new_book: &Book) -> (r: Result<(), StoreError>)
        ensures
            r == after_select_book(db@, old(self)@, new_book.id as int).0,
            final(self)@ == after_select_book(db@, old(self)@, new_book.id as int).1,
    {
        let book = match db.get_book(&new_book.id) {
            Ok(b) => b,
            Err(e) => {
                return Err(e);
            },
        };
        let num_chapters = match db.get_chapters(&new_book.id) {
            Ok(m) => m,
            Err(e) => {
                return Err(e);
            },
        };
        proof {
            lemma_max_chapter_in_range(db, new_book.id as int);
        }
        let book = Book { id: book.id, name: book.name, num_chapters };
        let verses = db.get_verses(1, &book);
        self.book = book;
        self.chapter = 1;
        self.verses = verses;
        proof {
            assert(self@ =~= after_select_book(db@, old(self)@, new_book.id as int).1);
        }
        Ok(())
    }

    /// Set the chapter and reload the verse list for it; the book stays as
    /// it is. A chapter with no verse rows yields the empty list.
    pub fn select_chapter(&mut self, db: &Database, chapter: i64)
        ensures
            final(self)@ == after_select_chapter(db@, old(self)@, chapter as int),
    {
        let verses = db.get_verses(chapter, &self.book);
        self.chapter = chapter;
        self.verses = verses;
    }

    /// The selection the application starts from: book id one, chapter one,
    /// as fetched from the store.
    pub fn startup(db: &Database) -> (r: Result<Selection, StoreError>)
        ensures
            match r {
                Ok(s) => book_lookup(db@.books, 1) is Some && max_chapter_of(db@.verses, 1)
                    is Some && s@ == loaded_selection(db@, 1),
                Err(StoreError::BookNotFound) => book_lookup(db@.books, 1) is None,
                Err(StoreError::NoVerses) => book_lookup(db@.books, 1) is Some && max_chapter_of(
                    db@.verses,
                    1,
                ) is None,
            },
    {
        let book = match db.get_book(&1) {
            Ok(b) => b,
            Err(e) => {
                return Err(e);
            },
        };
        let num_chapters = match db.get_chapters(&1) {
            Ok(m) => m,
            Err(e) => {
                return Err(e);
            },
        };
        proof {
            lemma_max_chapter_in_range(db, 1);
        }
        let book = Book { id: book.id, name: book.name, num_chapters };
        let verses = db.get_verses(1, &book);
        let s = Selection { book, chapter: 1, verses };
        proof {
            assert(s@ =~= loaded_selection(db@, 1));
        }
        Ok(s)
    }
}

/// The selection invariant: the verse list is exactly the store's verse rows
/// for the selected (book, chapter) pair, in ascending verse-number order.
pub open spec fn consistent_with(s: SelectionView, db: DatabaseView) -> bool {
    &&& sorted_by_number(s.verses)
    &&& s.verses.to_multiset() == matching_verses(db.verses, s.book.id, s.chapter).to_multiset()
}

/// Both mutations leave the selection consistent with the store: a successful
/// book choice and every chapter choice re-establish the invariant.
pub proof fn lemma_selection_consistent(db: DatabaseView, s: SelectionView, id: int, chapter: int)
    ensures
        after_select_book(db, s, id).0 == Ok::<(), StoreError>(()) ==> consistent_with(
            after_select_book(db, s, id).1,
            db,
        ),
        consistent_with(after_select_chapter(db, s, chapter), db),
{
    lemma_book_lookup_found(db.books, id);
    lemma_sort_by_number_props(matching_verses(db.verses, id, 1));
    lemma_sort_by_number_props(matching_verses(db.verses, s.book.id, chapter));
}

/// Selecting a book already resets the chapter to one: selecting chapter one
/// right afterwards leaves the selection exactly as it was.
pub proof fn lemma_chapter_reset_idempotent(db: DatabaseView, s: SelectionView, id: int)
    requires
        after_select_book(db, s, id).0 == Ok::<(), StoreError>(()),
    ensures
        after_select_chapter(db, after_select_book(db, s, id).1, 1) == after_select_book(
            db,
            s,
            id,
        ).1,
{
    lemma_book_lookup_found(db.books, id);
    let sel = after_select_book(db, s, id).1;
    assert(sel.book.id == id);
    assert(after_select_chapter(db, sel, 1) =~= sel);
}

} // verus!
