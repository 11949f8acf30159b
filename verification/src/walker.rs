//! The book walker: it carries the per-document transform across the whole
//! collection tree, depth first, writing each transformed body back into
//! its leaf.
//!
//! The per-document transform is total — a malformed document yields zero
//! or partial records, never an error — so no leaf can fail and the walk
//! returns the updated collection outright. The host-protocol failures
//! that can abort a run live with the host adapter, outside this library.

use vstd::prelude::*;

use crate::bytes::slice_range;
use crate::events::events_of;
use crate::preprocessor::preprocess;
use crate::preprocessor::preprocess_spec;
use crate::preprocessor::target_tag;

verus! {

/// A leaf document of the collection: its name, its text body, and the
/// items nested below it.
pub struct Chapter {
    /// The chapter's name.
    pub name: Vec<u8>,
    /// The chapter's text body.
    pub content: Vec<u8>,
    /// The items nested below this chapter.
    pub sub_items: Vec<BookItem>,
}

/// One node of the collection tree.
pub enum BookItem {
    /// A leaf document, with its own nested items.
    Chapter(Chapter),
    /// A separator; it carries no content.
    Separator,
    /// A grouping title; its text is not chapter content.
    PartTitle(Vec<u8>),
}

/// The whole collection: its top-level items in reading order.
pub struct Book {
    /// The top-level items.
    pub sections: Vec<BookItem>,
}

/// The mathematical image of one `Chapter`.
pub struct ChapterModel {
    pub name: Seq<u8>,
    pub content: Seq<u8>,
    pub sub_items: Seq<ItemModel>,
}

/// The mathematical image of one `BookItem`.
pub enum ItemModel {
    Chapter(ChapterModel),
    Separator,
    PartTitle(Seq<u8>),
}

/// The mathematical image of one `Book`.
pub struct BookModel {
    pub sections: Seq<ItemModel>,
}

/// The model of one collection node.
pub open spec fn item_view(it: BookItem) -> ItemModel
    decreases it,
{
    match it {
        BookItem::Chapter(c) => ItemModel::Chapter(chapter_view(c)),
        BookItem::Separator => ItemModel::Separator,
        BookItem::PartTitle(t) => ItemModel::PartTitle(t@),
    }
}

/// The model of one chapter.
pub open spec fn chapter_view(c: Chapter) -> ChapterModel
    decreases c,
{
    ChapterModel { name: c.name@, content: c.content@, sub_items: items_view(c.sub_items@) }
}

/// The models of a list of collection nodes, in order.
pub open spec fn items_view(its: Seq<BookItem>) -> Seq<ItemModel>
    decreases its,
{
    if its.len() == 0 {
        Seq::empty()
    } else {
        items_view(its.drop_last()).push(item_view(its.last()))
    }
}

impl View for Chapter {
    type V = ChapterModel;

    open spec fn view(&self) -> ChapterModel {
        chapter_view(*self)
    }
}

impl View for BookItem {
    type V = ItemModel;

    open spec fn view(&self) -> ItemModel {
        item_view(*self)
    }
}

impl View for Book {
    type V = BookModel;

    open spec fn view(&self) -> BookModel {
        BookModel { sections: items_view(self.sections@) }
    }
}

/// `items_view` keeps the length and maps each node to its model.
pub proof fn lemma_items_view_props(its: Seq<BookItem>)
    ensures
        items_view(its).len() == its.len(),
        forall|i: int| 0 <= i < its.len() ==> #[trigger] items_view(its)[i] == item_view(its[i]),
    decreases its.len(),
{
    if its.len() > 0 {
        lemma_items_view_props(its.drop_last());
        assert forall|i: int| 0 <= i < its.len() implies #[trigger] items_view(its)[i] == item_view(
            its[i],
        ) by {
            if i < its.len() - 1 {
                assert(items_view(its)[i] == items_view(its.drop_last())[i]);
                assert(its.drop_last()[i] == its[i]);
            }
        }
    }
}

/// One transformed node: a chapter's body is preprocessed, depth first;
/// separators and part titles pass through unchanged.
pub open spec fn walk_item(it: ItemModel) -> ItemModel
    decreases it,
{
    match it {
        ItemModel::Chapter(c) => ItemModel::Chapter(walk_chapter(c)),
        ItemModel::Separator => ItemModel::Separator,
        ItemModel::PartTitle(t) => ItemModel::PartTitle(t),
    }
}

/// One transformed chapter: the body is replaced by the preprocessed body;
/// the nested items are walked in turn.
pub open spec fn walk_chapter(c: ChapterModel) -> ChapterModel
    decreases c,
{
    ChapterModel {
        name: c.name,
        content: preprocess_spec(c.content, events_of(c.content), target_tag()),
        sub_items: walk_items(c.sub_items),
    }
}

/// A list of nodes, each transformed in order.
pub open spec fn walk_items(its: Seq<ItemModel>) -> Seq<ItemModel>
    decreases its,
{
    if its.len() == 0 {
        Seq::empty()
    } else {
        walk_items(its.drop_last()).push(walk_item(its.last()))
    }
}

/// The whole transformed collection.
pub open spec fn walk_book(b: BookModel) -> BookModel {
    BookModel { sections: walk_items(b.sections) }
}

/// `walk_items` keeps the length and maps each node to its walk.
pub proof fn lemma_walk_items_props(ms: Seq<ItemModel>)
    ensures
        walk_items(ms).len() == ms.len(),
        forall|i: int| 0 <= i < ms.len() ==> #[trigger] walk_items(ms)[i] == walk_item(ms[i]),
    decreases ms.len(),
{
    if ms.len() > 0 {
        lemma_walk_items_props(ms.drop_last());
        assert forall|i: int| 0 <= i < ms.len() implies #[trigger] walk_items(ms)[i] == walk_item(
            ms[i],
        ) by {
            if i < ms.len() - 1 {
                assert(walk_items(ms)[i] == walk_items(ms.drop_last())[i]);
                assert(ms.drop_last()[i] == ms[i]);
            }
        }
    }
}

/// Transforms one collection node.
fn run_item(it: &BookItem) -> (r: BookItem)
    ensures
        item_view(r) == walk_item(item_view(*it)),
    decreases *it,
{
    match it {
        BookItem::Chapter(c) => BookItem::Chapter(run_chapter(c)),
        BookItem::Separator => BookItem::Separator,
        BookItem::PartTitle(t) => {
            let copy = slice_range(t, 0, t.len());
            proof {
                assert(copy@ =~= t@);
            }
            BookItem::PartTitle(copy)
        },
    }
}

/// Transforms one chapter: preprocesses its body and walks its children.
fn run_chapter(c: &Chapter) -> (r: Chapter)
    ensures
        chapter_view(r) == walk_chapter(chapter_view(*c)),
    decreases *c,
{
    let name = slice_range(&c.name, 0, c.name.len());
    let content = preprocess(&c.content);
    let subs = run_items(&c.sub_items);
    proof {
        assert(name@ =~= c.name@);
    }
    Chapter { name, content, sub_items: subs }
}

/// Transforms a list of collection nodes, in order.
fn run_items(items: &Vec<BookItem>) -> (r: Vec<BookItem>)
    ensures
        items_view(r@) == walk_items(items_view(items@)),
    decreases items@,
{
    let ghost ms = items_view(items@);
    proof {
        lemma_items_view_props(items@);
        lemma_walk_items_props(ms);
    }
    let mut out: Vec<BookItem> = Vec::new();
    let mut i: usize = 0;
    while i < items.len()
        invariant
            i <= items@.len(),
            ms == items_view(items@),
            ms.len() == items@.len(),
            forall|j: int| 0 <= j < items@.len() ==> #[trigger] ms[j] == item_view(items@[j]),
            walk_items(ms).len() == ms.len(),
            forall|j: int| 0 <= j < ms.len() ==> #[trigger] walk_items(ms)[j] == walk_item(ms[j]),
            out@.len() == i,
            forall|j: int| 0 <= j < i ==> item_view(#[trigger] out@[j]) == walk_items(ms)[j],
        decreases items@.len() - i,
    {
        let w = run_item(&items[i]);
        out.push(w);
        i = i + 1;
    }
    proof {
        lemma_items_view_props(out@);
        assert(items_view(out@) =~= walk_items(ms));
    }
    out
}

/// The preprocessor itself. Its `run` rewrites a whole collection; its
/// `name` and `supports_renderer` answer the host's capability queries.
pub struct Merjong;

impl Merjong {
    /// The preprocessor's name.
    pub fn name(&self) -> (r: &'static str)
        ensures
            r@ == "merjong"@,
    {
        "merjong"
    }

    /// Transforms every chapter of `book`, depth first, and returns the
    /// updated collection.
    pub fn run(&self, book: Book) -> (r: Book)
        ensures
            r@ == walk_book(book@),
    {
        let sections = run_items(&book.sections);
        Book { sections }
    }

    /// This transform serves every renderer.
    pub fn supports_renderer(&self, _renderer: &str) -> (r: bool)
        ensures
            r,
    {
        true
    }
}

} // verus!
