//! The data model and the query layer: books, verses, and an in-memory
//! image of the pre-populated relational store, with the four lookups the
//! selection state needs. The host loads the rows from disk and hands them
//! to `Database::new`; every query over them is verified here.

use vstd::prelude::*;

verus! {

/// A named top-level unit of the corpus, identified by integer id.
/// `num_chapters` is derived (never stored as a column): it is zero on a
/// freshly fetched row and is refreshed when a book is selected.
pub struct Book {
    pub id: i64,
    pub name: String,
    pub num_chapters: i64,
}

/// Mathematical image of a `Book`.
#[verifier::ext_equal]
pub struct BookView {
    pub id: int,
    pub name: Seq<char>,
    pub num_chapters: int,
}

impl View for Book {
    type V = BookView;

    open spec fn view(&self) -> BookView {
        BookView { id: self.id as int, name: self.name@, num_chapters: self.num_chapters as int }
    }
}

impl DeepView for Book {
    type V = BookView;

    open spec fn deep_view(&self) -> BookView {
        self@
    }
}

impl Book {
    /// An exact copy, field for field.
    pub fn duplicate(&self) -> (r: Book)
        ensures
            r@ == self@,
    {
        Book { id: self.id, name: self.name.clone(), num_chapters: self.num_chapters }
    }
}

/// Books are equal exactly when their ids are equal.
impl PartialEq for Book {
    fn eq(&self, other: &Self) -> (r: bool) {
        self.id == other.id
    }
}

impl vstd::std_specs::cmp::PartialEqSpecImpl for Book {
    open spec fn obeys_eq_spec() -> bool {
        true
    }

    open spec fn eq_spec(&self, other: &Book) -> bool {
        self.id == other.id
    }
}

/// The atomic displayable unit: a numbered line of text within a
/// (book, chapter) pair. Verses are read-only projections of stored rows,
/// fetched but never created or mutated by the application.
pub struct Verse {
    pub number: i8,
    pub chapter: i8,
    pub book: i8,
    pub text: String,
}

/// Mathematical image of a `Verse`.
#[verifier::ext_equal]
pub struct VerseView {
    pub number: int,
    pub chapter: int,
    pub book: int,
    pub text: Seq<char>,
}

impl View for Verse {
    type V = VerseView;

    open spec fn view(&self) -> VerseView {
        VerseView {
            number: self.number as int,
            chapter: self.chapter as int,
            book: self.book as int,
            text: self.text@,
        }
    }
}

impl DeepView for Verse {
    type V = VerseView;

    open spec fn deep_view(&self) -> VerseView {
        self@
    }
}

impl Verse {
    /// An exact copy, field for field.
    pub fn duplicate(&self) -> (r: Verse)
        ensures
            r@ == self@,
    {
        Verse { number: self.number, chapter: self.chapter, book: self.book, text: self.text.clone() }
    }
}

/// The recoverable per-operation faults: a primary-key lookup that matches
/// no row, and a chapter-count request for a book with no verse rows.
#[derive(Clone, Copy, PartialEq, Eq, Structural, Debug)]
pub enum StoreError {
    BookNotFound,
    NoVerses,
}

/// Mathematical image of the whole store.
#[verifier::ext_equal]
pub struct DatabaseView {
    pub books: Seq<BookView>,
    pub verses: Seq<VerseView>,
}

/// An owned, in-memory image of the pre-populated relational store: the
/// `books` table and the `verses` table. The host reads both tables from
/// disk once at startup and hands the rows here; the four lookups below
/// are the only readers.
pub struct Database {
    pub books: Vec<Book>,
    pub verses: Vec<Verse>,
}

impl View for Database {
    type V = DatabaseView;

    open spec fn view(&self) -> DatabaseView {
        DatabaseView { books: self.books.deep_view(), verses: self.verses.deep_view() }
    }
}

impl DatabaseView {
    /// The schema's primary-key guarantee: book ids are unique.
    pub open spec fn wf(self) -> bool {
        forall|i: int, j: int|
            0 <= i < self.books.len() && 0 <= j < self.books.len() && i != j
                ==> #[trigger] self.books[i].id != #[trigger] self.books[j].id
    }
}

/// The first book row whose id equals `id`, in stored order, if any.
pub open spec fn book_lookup(books: Seq<BookView>, id: int) -> Option<BookView>
    decreases books.len(),
{
    if books.len() == 0 {
        None
    } else {
        match book_lookup(books.drop_last(), id) {
            Some(b) => Some(b),
            None => if books.last().id == id {
                Some(books.last())
            } else {
                None
            },
        }
    }
}

/// Whether some book row carries this id.
pub open spec fn has_book(books: Seq<BookView>, id: int) -> bool {
    exists|i: int| 0 <= i < books.len() && #[trigger] books[i].id == id
}

/// A lookup finds a row exactly when one carries the id, and what it finds
/// carries that id.
pub proof fn lemma_book_lookup_found(books: Seq<BookView>, id: int)
    ensures
        book_lookup(books, id) is Some <==> has_book(books, id),
        match book_lookup(books, id) {
            Some(b) => b.id == id && exists|i: int|
                0 <= i < books.len() && #[trigger] books[i] == b,
            None => true,
        },
    decreases books.len(),
{
    if books.len() > 0 {
        lemma_book_lookup_found(books.drop_last(), id);
        if has_book(books.drop_last(), id) {
            assert(has_book(books, id)) by {
                let i = choose|i: int|
                    0 <= i < books.drop_last().len() && #[trigger] books.drop_last()[i].id == id;
                assert(books[i].id == id);
            }
        }
        if book_lookup(books, id) is None && has_book(books, id) {
            let i = choose|i: int| 0 <= i < books.len() && #[trigger] books[i].id == id;
            if i < books.len() - 1 {
                assert(books.drop_last()[i].id == id);
            }
        }
        match book_lookup(books.drop_last(), id) {
            Some(b) => {
                let i = choose|i: int|
                    0 <= i < books.drop_last().len() && #[trigger] books.drop_last()[i] == b;
                assert(books[i] == b);
            },
            None => {},
        }
    }
}

/// Looking a catalog book up by its own id finds that book's id and name,
/// for any catalog whose ids are unique.
pub proof fn lemma_catalog_lookup(db: DatabaseView, i: int)
    requires
        db.wf(),
        0 <= i < db.books.len(),
    ensures
        book_lookup(db.books, db.books[i].id) matches Some(b) && b.id == db.books[i].id && b.name
            == db.books[i].name,
{
    lemma_book_lookup_found(db.books, db.books[i].id);
    assert(has_book(db.books, db.books[i].id));
    let b = book_lookup(db.books, db.books[i].id)->Some_0;
    let j = choose|j: int| 0 <= j < db.books.len() && #[trigger] db.books[j] == b;
    assert(j == i);
}

/// The highest `chapter` value among the verse rows of the given book,
/// if that book has any verse rows.
pub open spec fn max_chapter_of(verses: Seq<VerseView>, book_id: int) -> Option<int>
    decreases verses.len(),
{
    if verses.len() == 0 {
        None
    } else {
        let rest = max_chapter_of(verses.drop_last(), book_id);
        if verses.last().book == book_id {
            match rest {
                None => Some(verses.last().chapter),
                Some(m) => Some(if verses.last().chapter >= m {
                    verses.last().chapter
                } else {
                    m
                }),
            }
        } else {
            rest
        }
    }
}

/// `max_chapter_of` is the maximum `chapter` value among all verse rows with
/// the given book id; it is `None` exactly when no verse row has that id.
pub proof fn lemma_max_chapter_spec(verses: Seq<VerseView>, book_id: int)
    ensures
        match max_chapter_of(verses, book_id) {
            Some(m) => (exists|i: int|
                0 <= i < verses.len() && #[trigger] verses[i].book == book_id
                    && verses[i].chapter == m) && (forall|i: int|
                0 <= i < verses.len() && #[trigger] verses[i].book == book_id
                    ==> verses[i].chapter <= m),
            None => forall|i: int| 0 <= i < verses.len() ==> #[trigger] verses[i].book != book_id,
        },
    decreases verses.len(),
{
    if verses.len() > 0 {
        lemma_max_chapter_spec(verses.drop_last(), book_id);
        let rest = max_chapter_of(verses.drop_last(), book_id);
        match rest {
            Some(m) => {
                let i = choose|i: int|
                    0 <= i < verses.drop_last().len()
                        && #[trigger] verses.drop_last()[i].book == book_id
                        && verses.drop_last()[i].chapter == m;
                assert(verses[i].book == book_id && verses[i].chapter == m);
                assert(forall|i: int|
                    0 <= i < verses.len() - 1 && #[trigger] verses[i].book == book_id
                        ==> verses.drop_last()[i].chapter <= m);
            },
            None => {
                assert(forall|i: int|
                    0 <= i < verses.len() - 1 ==> #[trigger] verses[i].book
                        == verses.drop_last()[i].book);
            },
        }
    }
}

/// Whether a verse row belongs to the given (book, chapter) pair.
pub open spec fn verse_matches(v: VerseView, book_id: int, chapter: int) -> bool {
    v.book == book_id && v.chapter == chapter
}

/// The verse rows of the given (book, chapter) pair, in stored order.
pub open spec fn matching_verses(verses: Seq<VerseView>, book_id: int, chapter: int) -> Seq<
    VerseView,
> {
    verses.filter(|v: VerseView| verse_matches(v, book_id, chapter))
}

/// Ascending verse numbers.
pub open spec fn sorted_by_number(s: Seq<VerseView>) -> bool {
    forall|i: int, j: int|
        0 <= i < j < s.len() ==> #[trigger] s[i].number <= #[trigger] s[j].number
}

/// Place a verse behind every verse whose number does not exceed its own.
pub open spec fn insert_by_number(s: Seq<VerseView>, v: VerseView) -> Seq<VerseView>
    decreases s.len(),
{
    if s.len() == 0 {
        seq![v]
    } else if s[0].number <= v.number {
        seq![s[0]] + insert_by_number(s.drop_first(), v)
    } else {
        seq![v] + s
    }
}

/// Stable insertion sort by verse number.
pub open spec fn sort_by_number(s: Seq<VerseView>) -> Seq<VerseView>
    decreases s.len(),
{
    if s.len() == 0 {
        Seq::empty()
    } else {
        insert_by_number(sort_by_number(s.drop_last()), s.last())
    }
}

/// Appending a row to the stored order extends the matching rows by that row
/// exactly when it belongs to the pair.
proof fn lemma_matching_push(s: Seq<VerseView>, a: VerseView, book_id: int, chapter: int)
    ensures
        matching_verses(s.push(a), book_id, chapter) == if verse_matches(a, book_id, chapter) {
            matching_verses(s, book_id, chapter).push(a)
        } else {
            matching_verses(s, book_id, chapter)
        },
{
    reveal(Seq::filter);
    assert(s.push(a).drop_last() =~= s);
}

/// Inserting into a sorted run keeps it sorted, adds exactly the new verse,
/// and leaves every other verse in place.
proof fn lemma_insert_by_number_props(s: Seq<VerseView>, v: VerseView)
    requires
        sorted_by_number(s),
    ensures
        sorted_by_number(insert_by_number(s, v)),
        insert_by_number(s, v).to_multiset() == s.to_multiset().insert(v),
        insert_by_number(s, v).len() == s.len() + 1,
        forall|x: VerseView| #[trigger]
            insert_by_number(s, v).contains(x) ==> s.contains(x) || x == v,
    decreases s.len(),
{
    broadcast use vstd::seq_lib::group_to_multiset_ensures;
    broadcast use vstd::multiset::group_multiset_axioms;

    if s.len() == 0 {
        assert(seq![v] =~= Seq::<VerseView>::empty().insert(0, v));
        assert(Seq::<VerseView>::empty().insert(0, v).to_multiset() == Seq::<
            VerseView,
        >::empty().to_multiset().insert(v));
    } else if s[0].number <= v.number {
        assert(sorted_by_number(s.drop_first())) by {
            assert(forall|i: int, j: int|
                0 <= i < j < s.drop_first().len() ==> #[trigger] s.drop_first()[i].number
                    <= #[trigger] s.drop_first()[j].number);
        }
        lemma_insert_by_number_props(s.drop_first(), v);
        let t = insert_by_number(s.drop_first(), v);
        let r = seq![s[0]] + t;
        assert(insert_by_number(s, v) == r);
        // every element of the tail run is at least s[0]
        assert forall|i: int| 0 <= i < t.len() implies s[0].number <= #[trigger] t[i].number by {
            assert(t.contains(t[i]));
            if s.drop_first().contains(t[i]) {
                let j = choose|j: int|
                    0 <= j < s.drop_first().len() && #[trigger] s.drop_first()[j] == t[i];
                assert(s[j + 1] == t[i]);
            }
        }
        assert(sorted_by_number(r)) by {
            assert(forall|i: int| 0 <= i < t.len() ==> r[i + 1] == #[trigger] t[i]);
        }
        assert(r =~= t.insert(0, s[0]));
        assert(s =~= s.drop_first().insert(0, s[0]));
        assert(r.to_multiset() == s.to_multiset().insert(v)) by {
            assert(t.insert(0, s[0]).to_multiset() == t.to_multiset().insert(s[0]));
            assert(s.drop_first().insert(0, s[0]).to_multiset() == s.drop_first().to_multiset().insert(
                s[0],
            ));
            assert(s.drop_first().to_multiset().insert(v).insert(s[0]) =~= s.drop_first().to_multiset().insert(
                s[0],
            ).insert(v));
        }
        assert forall|x: VerseView| #[trigger] r.contains(x) implies s.contains(x) || x == v by {
            let i = choose|i: int| 0 <= i < r.len() && r[i] == x;
            if i == 0 {
                assert(s.contains(s[0]));
            } else {
                assert(t.contains(t[i - 1]));
                if s.drop_first().contains(x) {
                    let j = choose|j: int|
                        0 <= j < s.drop_first().len() && #[trigger] s.drop_first()[j] == x;
                    assert(s[j + 1] == x);
                }
            }
        }
    } else {
        let r = seq![v] + s;
        assert(insert_by_number(s, v) == r);
        assert(r =~= s.insert(0, v));
        assert(sorted_by_number(r)) by {
            assert(forall|i: int| 0 <= i < s.len() ==> r[i + 1] == #[trigger] s[i]);
        }
        assert forall|x: VerseView| #[trigger] r.contains(x) implies s.contains(x) || x == v by {
            let i = choose|i: int| 0 <= i < r.len() && r[i] == x;
            if i > 0 {
                assert(s.contains(s[i - 1]));
            }
        }
    }
}

/// Sorting orders the rows by verse number and keeps exactly the given rows.
pub proof fn lemma_sort_by_number_props(s: Seq<VerseView>)
    ensures
        sorted_by_number(sort_by_number(s)),
        sort_by_number(s).to_multiset() == s.to_multiset(),
        sort_by_number(s).len() == s.len(),
    decreases s.len(),
{
    broadcast use vstd::seq_lib::group_to_multiset_ensures;

    if s.len() > 0 {
        lemma_sort_by_number_props(s.drop_last());
        lemma_insert_by_number_props(sort_by_number(s.drop_last()), s.last());
        assert(s =~= s.drop_last().push(s.last()));
        assert(s.drop_last().push(s.last()).to_multiset() == s.drop_last().to_multiset().insert(
            s.last(),
        ));
    }
}

/// The stable insertion point is exactly where a left-to-right scan stops:
/// behind the verses with numbers up to the new one, ahead of the rest.
proof fn lemma_insert_by_number_at(s: Seq<VerseView>, v: VerseView, k: int)
    requires
        sorted_by_number(s),
        0 <= k <= s.len(),
        forall|j: int| 0 <= j < k ==> #[trigger] s[j].number <= v.number,
        k < s.len() ==> s[k].number > v.number,
    ensures
        insert_by_number(s, v) == s.insert(k, v),
    decreases s.len(),
{
    if s.len() == 0 {
        assert(seq![v] =~= s.insert(0, v));
    } else if k == 0 {
        assert(seq![v] + s =~= s.insert(0, v));
    } else {
        assert(s[0].number <= v.number);
        assert(sorted_by_number(s.drop_first())) by {
            assert(forall|i: int, j: int|
                0 <= i < j < s.drop_first().len() ==> #[trigger] s.drop_first()[i].number
                    <= #[trigger] s.drop_first()[j].number);
        }
        assert(forall|j: int| 0 <= j < k - 1 ==> #[trigger] s.drop_first()[j].number <= v.number)
            by {
            assert(forall|j: int| 0 <= j < k - 1 ==> s.drop_first()[j] == s[j + 1]);
        }
        lemma_insert_by_number_at(s.drop_first(), v, k - 1);
        assert(seq![s[0]] + s.drop_first().insert(k - 1, v) =~= s.insert(k, v));
    }
}

impl Database {
    /// Wraps the rows of the two tables, exactly as read from the store.
    pub fn new(books: Vec<Book>, verses: Vec<Verse>) -> (r: Database)
        ensures
            r@.books == books.deep_view(),
            r@.verses == verses.deep_view(),
    {
        Database { books, verses }
    }

    /// The full catalog: every book row, in stored order.
    pub fn get_books(&self) -> (r: Vec<Book>)
        ensures
            r.deep_view() == self@.books,
    {
        let mut out: Vec<Book> = Vec::new();
        let n = self.books.len();
        for i in 0..n
            invariant
                n == self.books.len(),
                out.deep_view() =~= self@.books.take(i as int),
        {
            let ghost prev = out.deep_view();
            out.push(self.books[i].duplicate());
            proof {
                assert(out.deep_view() =~= prev.push(self@.books[i as int]));
                assert(self@.books.take(i as int + 1) =~= prev.push(self@.books[i as int]));
            }
        }
        proof {
            assert(out.deep_view() =~= self@.books);
        }
        out
    }

    /// Fetch one book row by primary key: the first row with this id, its
    /// derived chapter count left unset. An id that matches no row is an
    /// explicit `BookNotFound`, never an abort.
    pub fn get_book(&self, id: &i64) -> (r: Result<Book, StoreError>)
        ensures
            match book_lookup(self@.books, *id as int) {
                Some(b) => (r matches Ok(found) && found@ == (BookView {
                    id: b.id,
                    name: b.name,
                    num_chapters: 0,
                })),
                None => r == Err::<Book, StoreError>(StoreError::BookNotFound),
            },
    {
        let mut found: Option<Book> = None;
        let n = self.books.len();
        for i in 0..n
            invariant
                n == self.books.len(),
                match found {
                    Some(b) => (book_lookup(self@.books.take(i as int), *id as int) matches Some(
                        bv,
                ) && b@ == (BookView { id: bv.id, name: bv.name, num_chapters: 0 })),
                    None => book_lookup(self@.books.take(i as int), *id as int) is None,
                },
        {
            proof {
                assert(self@.books.take(i as int + 1).drop_last() =~= self@.books.take(i as int));
            }
            if found.is_none() && self.books[i].id == *id {
                found = Some(
                    Book { id: self.books[i].id, name: self.books[i].name.clone(), num_chapters: 0 },
                );
            }
        }
        proof {
            assert(self@.books.take(n as int) =~= self@.books);
        }
        match found {
            Some(b) => Ok(b),
            None => Err(StoreError::BookNotFound),
        }
    }

    /// The highest chapter number among this book's verse rows. A book with
    /// no verse rows is an explicit `NoVerses`, never an abort.
    pub fn get_chapters(&self, id: &i64) -> (r: Result<i64, StoreError>)
        ensures
            match max_chapter_of(self@.verses, *id as int) {
                Some(m) => r == Ok::<i64, StoreError>(m as i64),
                None => r == Err::<i64, StoreError>(StoreError::NoVerses),
            },
    {
        let mut best: Option<i8> = None;
        let n = self.verses.len();
        for i in 0..n
            invariant
                n == self.verses.len(),
                match best {
                    Some(m) => max_chapter_of(self@.verses.take(i as int), *id as int) == Some(
                        m as int,
                    ),
                    None => max_chapter_of(self@.verses.take(i as int), *id as int) is None,
                },
        {
            proof {
                assert(self@.verses.take(i as int + 1).drop_last() =~= self@.verses.take(i as int));
            }
            if self.verses[i].book as i64 == *id {
                best = match best {
                    None => Some(self.verses[i].chapter),
                    Some(m) => Some(
                        if self.verses[i].chapter >= m {
                            self.verses[i].chapter
                        } else {
                            m
                        },
                    ),
                };
            }
        }
        proof {
            assert(self@.verses.take(n as int) =~= self@.verses);
        }
        match best {
            Some(m) => Ok(m as i64),
            None => Err(StoreError::NoVerses),
        }
    }

    /// All verse rows of the given (book, chapter) pair, by ascending verse
    /// number. A pair that matches no row yields the empty list, not an error.
    pub fn get_verses(&self, chapter: i64, book: &Book) -> (r: Vec<Verse>)
        ensures
            r.deep_view() == sort_by_number(
                matching_verses(self@.verses, book.id as int, chapter as int),
            ),
            sorted_by_number(r.deep_view()),
            r.deep_view().to_multiset() == matching_verses(
                self@.verses,
                book.id as int,
                chapter as int,
            ).to_multiset(),
            forall|i: int|
                0 <= i < r.deep_view().len() ==> verse_matches(
                    #[trigger] r.deep_view()[i],
                    book.id as int,
                    chapter as int,
                ),
    {
        let ghost bid = book.id as int;
        let ghost ch = chapter as int;
        let mut out: Vec<Verse> = Vec::new();
        let n = self.verses.len();
        for i in 0..n
            invariant
                n == self.verses.len(),
                bid == book.id as int,
                ch == chapter as int,
                out.deep_view() == sort_by_number(matching_verses(self@.verses.take(i as int), bid, ch)),
                sorted_by_number(out.deep_view()),
        {
            let ghost prev_matching = matching_verses(self@.verses.take(i as int), bid, ch);
            proof {
                assert(self@.verses.take(i as int + 1) =~= self@.verses.take(i as int).push(
                    self@.verses[i as int],
                ));
                lemma_matching_push(self@.verses.take(i as int), self@.verses[i as int], bid, ch);
            }
            let v = &self.verses[i];
            if v.book as i64 == book.id && v.chapter as i64 == chapter {
                let ghost prev_out = out.deep_view();
                let mut k: usize = 0;
                while k < out.len() && out[k].number <= v.number
                    invariant
                        k <= out.len(),
                        out.deep_view() == prev_out,
                        forall|j: int| 0 <= j < k ==> #[trigger] prev_out[j].number <= v@.number,
                    decreases out.len() - k,
                {
                    k += 1;
                }
                proof {
                    lemma_insert_by_number_at(prev_out, v@, k as int);
                    assert(v@ == self@.verses[i as int]);
                    assert(v@.book == bid && v@.chapter == ch);
                    assert(verse_matches(self@.verses[i as int], bid, ch));
                    assert(matching_verses(self@.verses.take(i as int + 1), bid, ch)
                        == prev_matching.push(v@));
                    assert(prev_matching.push(v@).drop_last() =~= prev_matching);
                    lemma_insert_by_number_props(prev_out, v@);
                }
                out.insert(k, v.duplicate());
                proof {
                    assert(out.deep_view() =~= prev_out.insert(k as int, v@));
                }
            } else {
                proof {
                    assert(v@ == self@.verses[i as int]);
                    assert(!(v@.book == bid && v@.chapter == ch));
                    assert(!verse_matches(self@.verses[i as int], bid, ch));
                    assert(matching_verses(self@.verses.take(i as int + 1), bid, ch)
                        == prev_matching);
                }
            }
        }
        proof {
            assert(self@.verses.take(n as int) =~= self@.verses);
            let m = matching_verses(self@.verses, bid, ch);
            lemma_sort_by_number_props(m);
            broadcast use vstd::seq_lib::group_filter_ensures;
            broadcast use vstd::seq_lib::group_to_multiset_ensures;

            assert forall|i: int| 0 <= i < out.deep_view().len() implies verse_matches(
                #[trigger] out.deep_view()[i],
                bid,
                ch,
            ) by {
                let dv = out.deep_view();
                assert(dv.contains(dv[i]));
                assert(dv.to_multiset().count(dv[i]) > 0);
                assert(m.contains(dv[i]));
                let j = choose|j: int| 0 <= j < m.len() && m[j] == dv[i];
                assert(verse_matches(m[j], bid, ch));
            }
        }
        out
    }
}

} // verus!
