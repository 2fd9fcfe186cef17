//! The document tree and the two traversals over it: collecting the pathed
//! chapters as templates, and rendering each pathed chapter in place.

use vstd::prelude::*;
use vstd::utf8::decode_utf8;
use vstd::utf8::valid_utf8;

use crate::context::ContextValue;
use crate::engine;
use crate::errors::Error;
use crate::errors::ErrorKind;

verus! {

/// One node of the document tree.
#[derive(Debug)]
pub enum BookItem {
    /// An addressable chapter.
    Chapter(Chapter),
    /// A part title: an inert leaf.
    PartTitle(String),
    /// A separator: an inert leaf.
    Separator,
}

/// A chapter of the document tree.
#[derive(Debug)]
pub struct Chapter {
    /// The chapter's source path as raw path bytes; a chapter without a path
    /// is valid but has no addressable template name.
    pub path: Option<Vec<u8>>,
    /// The chapter's text: a template before a run, rendered text after.
    pub content: String,
    /// The chapter's ordered children.
    pub sub_items: Vec<BookItem>,
}

/// The mathematical shape of a node.
pub enum ItemView {
    /// A chapter: path bytes, content text, children.
    Chapter { path: Option<Seq<u8>>, content: Seq<char>, sub_items: Seq<ItemView> },
    /// A part title.
    PartTitle(Seq<char>),
    /// A separator.
    Separator,
}

/// The shape of one node.
pub open spec fn item_view(item: BookItem) -> ItemView
    decreases item,
{
    match item {
        BookItem::Chapter(c) => ItemView::Chapter {
            path: match c.path {
                Option::Some(p) => Option::Some(p@),
                Option::None => Option::None,
            },
            content: c.content@,
            sub_items: items_view(c.sub_items@),
        },
        BookItem::PartTitle(t) => ItemView::PartTitle(t@),
        BookItem::Separator => ItemView::Separator,
    }
}

/// The shape of a node list.
pub open spec fn items_view(items: Seq<BookItem>) -> Seq<ItemView>
    decreases items,
{
    if items.len() == 0 {
        Seq::empty()
    } else {
        items_view(items.drop_last()).push(item_view(items.last()))
    }
}

/// Every present path of the node decodes as portable text (UTF-8).
pub open spec fn item_paths_ok(item: ItemView) -> bool
    decreases item,
{
    match item {
        ItemView::Chapter { path, sub_items, .. } => {
            &&& match path {
                Option::Some(p) => valid_utf8(p),
                Option::None => true,
            }
            &&& paths_ok(sub_items)
        },
        _ => true,
    }
}

/// Every present path of the tree decodes as portable text.
pub open spec fn paths_ok(items: Seq<ItemView>) -> bool
    decreases items,
{
    if items.len() == 0 {
        true
    } else {
        paths_ok(items.drop_last()) && item_paths_ok(items.last())
    }
}

/// The (name, content) pairs of the node's pathed chapters, pre-order.
pub open spec fn collected_item(item: ItemView) -> Seq<(Seq<char>, Seq<char>)>
    decreases item,
{
    match item {
        ItemView::Chapter { path, content, sub_items } => {
            (match path {
                Option::Some(p) => if valid_utf8(p) {
                    seq![(decode_utf8(p), content)]
                } else {
                    Seq::empty()
                },
                Option::None => Seq::empty(),
            }) + collected(sub_items)
        },
        _ => Seq::empty(),
    }
}

/// The (name, content) pairs of the tree's pathed chapters, pre-order: each
/// chapter before its children, siblings left to right.
pub open spec fn collected(items: Seq<ItemView>) -> Seq<(Seq<char>, Seq<char>)>
    decreases items,
{
    if items.len() == 0 {
        Seq::empty()
    } else {
        collected(items.drop_last()) + collected_item(items.last())
    }
}

/// How many chapters of the node carry a path.
pub open spec fn item_pathed_count(item: ItemView) -> nat
    decreases item,
{
    match item {
        ItemView::Chapter { path, sub_items, .. } => {
            (if path is Some {
                1nat
            } else {
                0nat
            }) + pathed_count(sub_items)
        },
        _ => 0nat,
    }
}

/// How many chapters of the tree carry a path.
pub open spec fn pathed_count(items: Seq<ItemView>) -> nat
    decreases items,
{
    if items.len() == 0 {
        0nat
    } else {
        pathed_count(items.drop_last()) + item_pathed_count(items.last())
    }
}

/// Whether some chapter of the node carries `name` as its decoded path.
pub open spec fn item_has_pathed_named(item: ItemView, name: Seq<char>) -> bool
    decreases item,
{
    match item {
        ItemView::Chapter { path, sub_items, .. } => {
            ||| (path matches Option::Some(p) && valid_utf8(p) && decode_utf8(p) == name)
            ||| has_pathed_named(sub_items, name)
        },
        _ => false,
    }
}

/// Whether some chapter of the tree carries `name` as its decoded path.
pub open spec fn has_pathed_named(items: Seq<ItemView>, name: Seq<char>) -> bool
    decreases items,
{
    if items.len() == 0 {
        false
    } else {
        has_pathed_named(items.drop_last(), name) || item_has_pathed_named(items.last(), name)
    }
}

/// How a successful render pass relates one output node to one input node:
/// the same shape, a pathed chapter's content replaced by a rendering of its
/// template, an unpathed chapter's content untouched.
pub open spec fn render_rel_item(
    tpls: Map<Seq<char>, Seq<char>>,
    ctx: Map<Seq<char>, Seq<char>>,
    a: ItemView,
    b: ItemView,
) -> bool
    decreases a,
{
    match a {
        ItemView::Chapter { path, content, sub_items } => {
            &&& b matches ItemView::Chapter { path: bp, content: bc, sub_items: bs }
            &&& bp == path
            &&& render_rel(tpls, ctx, sub_items, bs)
            &&& match path {
                Option::Some(p) => valid_utf8(p) && tpls.contains_key(decode_utf8(p))
                    && engine::tera_render_may(tpls, ctx, decode_utf8(p), Some(bc)),
                Option::None => bc == content,
            }
        },
        ItemView::PartTitle(t) => b == ItemView::PartTitle(t),
        ItemView::Separator => b == ItemView::Separator,
    }
}

/// How a successful render pass relates the output tree to the input tree,
/// node by node in the same order.
pub open spec fn render_rel(
    tpls: Map<Seq<char>, Seq<char>>,
    ctx: Map<Seq<char>, Seq<char>>,
    a: Seq<ItemView>,
    b: Seq<ItemView>,
) -> bool
    decreases a,
{
    &&& a.len() == b.len()
    &&& a.len() > 0 ==> render_rel(tpls, ctx, a.drop_last(), b.drop_last()) && render_rel_item(
        tpls,
        ctx,
        a.last(),
        b.last(),
    )
}

// ---------------------------------------------------------------------------
// Lemmas relating the recursive definitions to indexing.
// ---------------------------------------------------------------------------

proof fn lemma_items_view_len(s: Seq<BookItem>)
    ensures
        items_view(s).len() == s.len(),
    decreases s,
{
    if s.len() > 0 {
        lemma_items_view_len(s.drop_last());
    }
}

proof fn lemma_items_view_index(s: Seq<BookItem>, i: int)
    requires
        0 <= i < s.len(),
    ensures
        items_view(s).len() == s.len(),
        items_view(s)[i] == item_view(s[i]),
    decreases s,
{
    lemma_items_view_len(s);
    if i == s.len() - 1 {
        lemma_items_view_len(s.drop_last());
        assert(s.last() == s[i]);
    } else {
        lemma_items_view_index(s.drop_last(), i);
        assert(s.drop_last()[i] == s[i]);
    }
}

proof fn lemma_paths_ok_take_step(s: Seq<ItemView>, i: int)
    requires
        0 <= i < s.len(),
    ensures
        paths_ok(s.take(i + 1)) == (paths_ok(s.take(i)) && item_paths_ok(s[i])),
{
    assert(s.take(i + 1).drop_last() =~= s.take(i));
    assert(s.take(i + 1).last() == s[i]);
}

proof fn lemma_collected_take_step(s: Seq<ItemView>, i: int)
    requires
        0 <= i < s.len(),
    ensures
        collected(s.take(i + 1)) == collected(s.take(i)) + collected_item(s[i]),
{
    assert(s.take(i + 1).drop_last() =~= s.take(i));
    assert(s.take(i + 1).last() == s[i]);
}

proof fn lemma_paths_ok_index(s: Seq<ItemView>, i: int)
    requires
        paths_ok(s),
        0 <= i < s.len(),
    ensures
        item_paths_ok(s[i]),
    decreases s,
{
    if i == s.len() - 1 {
        assert(s.last() == s[i]);
    } else {
        lemma_paths_ok_index(s.drop_last(), i);
        assert(s.drop_last()[i] == s[i]);
    }
}

proof fn lemma_has_pathed_lift(s: Seq<ItemView>, i: int, name: Seq<char>)
    requires
        0 <= i < s.len(),
        item_has_pathed_named(s[i], name),
    ensures
        has_pathed_named(s, name),
    decreases s,
{
    if i == s.len() - 1 {
        assert(s.last() == s[i]);
    } else {
        assert(s.drop_last()[i] == s[i]);
        lemma_has_pathed_lift(s.drop_last(), i, name);
    }
}

proof fn lemma_render_rel_push(
    tpls: Map<Seq<char>, Seq<char>>,
    ctx: Map<Seq<char>, Seq<char>>,
    a: Seq<ItemView>,
    i: int,
    b: Seq<ItemView>,
    x: ItemView,
)
    requires
        0 <= i < a.len(),
        b.len() == i,
        render_rel(tpls, ctx, a.take(i), b),
        render_rel_item(tpls, ctx, a[i], x),
    ensures
        render_rel(tpls, ctx, a.take(i + 1), b.push(x)),
{
    assert(a.take(i + 1).drop_last() =~= a.take(i));
    assert(b.push(x).drop_last() =~= b);
    assert(a.take(i + 1).last() == a[i]);
    assert(b.push(x).last() == x);
}

// ---------------------------------------------------------------------------
// The collect pass.
// ---------------------------------------------------------------------------

/// The per-chapter visitor of the collect pass: appends the (name, content)
/// pair of this node's chapter if it carries a path, then its children's,
/// pre-order.
fn collect_one(templates: &mut Vec<(String, String)>, item: &BookItem) -> (r: Result<(), Error>)
    ensures
        r is Ok ==> item_paths_ok(item_view(*item)) && final(templates).deep_view() == old(
            templates,
        ).deep_view() + collected_item(item_view(*item)),
        r is Err ==> !item_paths_ok(item_view(*item)) && r->Err_0.kind == ErrorKind::InvalidPath
            && r->Err_0.chapter is None,
        old(templates).deep_view().is_prefix_of(final(templates).deep_view()),
    decreases *item,
{
    match item {
        BookItem::Chapter(c) => {
            let ghost tv0 = templates.deep_view();
            if let Option::Some(p) = &c.path {
                match engine::utf8_str(p) {
                    Option::Some(name) => {
                        let pair = (name.to_owned(), c.content.clone());
                        templates.push(pair);
                        proof {
                            assert(pair.deep_view() == (decode_utf8(p@), c.content@));
                            assert(templates.deep_view() =~= tv0 + seq![
                                (decode_utf8(p@), c.content@),
                            ]);
                        }
                    },
                    Option::None => {
                        return Err(Error::new(ErrorKind::InvalidPath));
                    },
                }
            }
            let sub = collect_item_chapters(templates, &c.sub_items);
            match sub {
                Result::Err(e) => Err(e),
                Result::Ok(()) => {
                    proof {
                        assert(templates.deep_view() =~= tv0 + collected_item(item_view(*item)));
                    }
                    Ok(())
                },
            }
        },
        _ => Ok(()),
    }
}

/// Appends to `templates` a (name, content) pair for every chapter of
/// `items` that carries a path, pre-order, the name being the path decoded
/// as text; fails with `InvalidPath` where a present path is not valid
/// UTF-8. The call only ever appends: what was in `templates` stays in
/// place, in order, whether the walk finishes or aborts.
pub fn collect_item_chapters(templates: &mut Vec<(String, String)>, items: &Vec<BookItem>) -> (r:
    Result<(), Error>)
    ensures
        r is Ok ==> paths_ok(items_view(items@)) && final(templates).deep_view() == old(
            templates,
        ).deep_view() + collected(items_view(items@)),
        r is Err ==> !paths_ok(items_view(items@)) && r->Err_0.kind == ErrorKind::InvalidPath
            && r->Err_0.chapter is None,
        old(templates).deep_view().is_prefix_of(final(templates).deep_view()),
    decreases items@,
{
    let ghost iv = items_view(items@);
    proof {
        lemma_items_view_len(items@);
    }
    let mut i: usize = 0;
    while i < items.len()
        invariant
            i <= items.len(),
            iv == items_view(items@),
            iv.len() == items@.len(),
            paths_ok(iv.take(i as int)),
            templates.deep_view() == old(templates).deep_view() + collected(iv.take(i as int)),
        decreases items@.len() - i,
    {
        proof {
            lemma_items_view_index(items@, i as int);
        }
        let r = collect_one(templates, &items[i]);
        match r {
            Result::Err(e) => {
                proof {
                    if paths_ok(iv) {
                        lemma_paths_ok_index(iv, i as int);
                    }
                }
                return Err(e);
            },
            Result::Ok(()) => {},
        }
        proof {
            lemma_paths_ok_take_step(iv, i as int);
            lemma_collected_take_step(iv, i as int);
            assert(templates.deep_view() =~= old(templates).deep_view() + collected(
                iv.take(i + 1 as int),
            ));
        }
        i += 1;
    }
    proof {
        assert(iv.take(items@.len() as int) =~= iv);
    }
    Ok(())
}

// ---------------------------------------------------------------------------
// The render pass.
// ---------------------------------------------------------------------------

/// The per-chapter visitor of the render pass: replaces a pathed chapter's
/// content with the rendering of its template, then visits its children;
/// part titles and separators pass through untouched.
fn render_one(tera: &tera::Tera, context: &ContextValue, item: BookItem) -> (r: Result<
    BookItem,
    Error,
>)
    ensures
        r is Ok ==> render_rel_item(
            engine::tera_templates(*tera),
            context@,
            item_view(item),
            item_view(r->Ok_0),
        ),
        r is Err ==> r->Err_0.kind == ErrorKind::InvalidPath || r->Err_0.kind
            == ErrorKind::NotFound || r->Err_0.kind == ErrorKind::Eval,
        r is Err && r->Err_0.kind == ErrorKind::InvalidPath ==> !item_paths_ok(item_view(item))
            && r->Err_0.chapter is None,
        r is Err && r->Err_0.kind != ErrorKind::InvalidPath ==> r->Err_0.chapter is Some
            && item_has_pathed_named(item_view(item), r->Err_0.chapter->Some_0@)
            && engine::tera_render_may(
            engine::tera_templates(*tera),
            context@,
            r->Err_0.chapter->Some_0@,
            None,
        ),
    decreases item,
{
    match item {
        BookItem::Chapter(c) => {
            let Chapter { path, content, sub_items } = c;
            let new_content: String;
            match &path {
                Option::Some(p) => {
                    match engine::utf8_str(p) {
                        Option::Some(name) => {
                            proof {
                                use_type_invariant(context);
                            }
                            match engine::tera_render_template(tera, name, context) {
                                Result::Ok(s) => {
                                    new_content = s;
                                },
                                Result::Err(kind) => {
                                    return Err(Error::in_chapter(kind, name.to_owned()));
                                },
                            }
                        },
                        Option::None => {
                            return Err(Error::new(ErrorKind::InvalidPath));
                        },
                    }
                },
                Option::None => {
                    new_content = content;
                },
            }
            match render_item_chapters(tera, context, sub_items) {
                Result::Ok(new_subs) => Ok(
                    BookItem::Chapter(
                        Chapter { path, content: new_content, sub_items: new_subs },
                    ),
                ),
                Result::Err(e) => Err(e),
            }
        },
        other => Ok(other),
    }
}

/// Renders every pathed chapter of `items` in place: its content is replaced
/// by the rendering of the template named by its path, against `context`;
/// chapters without a path are skipped, part titles and separators are
/// inert. The first failure aborts the pass: `InvalidPath` for a
/// non-portable path, `NotFound` or `Eval` from the engine — the latter two
/// annotated with the failing chapter's path, a pathed chapter of the tree
/// whose render the engine can refuse under this template set and context.
#[verifier::loop_isolation(false)]
pub fn render_item_chapters(tera: &tera::Tera, context: &ContextValue, items: Vec<BookItem>) -> (r:
    Result<Vec<BookItem>, Error>)
    ensures
        r is Ok ==> render_rel(
            engine::tera_templates(*tera),
            context@,
            items_view(items@),
            items_view(r->Ok_0@),
        ),
        r is Err ==> r->Err_0.kind == ErrorKind::InvalidPath || r->Err_0.kind
            == ErrorKind::NotFound || r->Err_0.kind == ErrorKind::Eval,
        r is Err && r->Err_0.kind == ErrorKind::InvalidPath ==> !paths_ok(items_view(items@))
            && r->Err_0.chapter is None,
        r is Err && r->Err_0.kind != ErrorKind::InvalidPath ==> r->Err_0.chapter is Some
            && has_pathed_named(items_view(items@), r->Err_0.chapter->Some_0@)
            && engine::tera_render_may(
            engine::tera_templates(*tera),
            context@,
            r->Err_0.chapter->Some_0@,
            None,
        ),
    decreases items@,
{
    let ghost orig = items@;
    let ghost iv = items_view(orig);
    proof {
        lemma_items_view_len(orig);
    }
    let n = items.len();
    proof {
        assert(orig.len() == n);
    }
    let mut rest = items;
    let mut out: Vec<BookItem> = Vec::new();
    let mut i: usize = 0;
    while rest.len() > 0
        invariant
            iv == items_view(orig),
            iv.len() == orig.len(),
            orig.len() <= usize::MAX,
            i + rest@.len() == orig.len(),
            rest@ =~= orig.skip(i as int),
            out@.len() == i,
            items_view(out@).len() == i,
            render_rel(
                engine::tera_templates(*tera),
                context@,
                iv.take(i as int),
                items_view(out@),
            ),
        decreases rest@.len(),
    {
        let it = rest.remove(0);
        proof {
            assert(it == orig[i as int]);
            lemma_items_view_index(orig, i as int);
            assert(decreases_to!(orig => it));
        }
        match render_one(tera, context, it) {
            Result::Ok(new_item) => {
                let ghost prev_out = out@;
                out.push(new_item);
                proof {
                    assert(items_view(out@).drop_last() =~= items_view(prev_out)) by {
                        assert(out@.drop_last() =~= prev_out);
                    }
                    lemma_items_view_len(out@);
                    assert(items_view(out@) =~= items_view(prev_out).push(item_view(new_item)));
                    lemma_render_rel_push(
                        engine::tera_templates(*tera),
                        context@,
                        iv,
                        i as int,
                        items_view(prev_out),
                        item_view(new_item),
                    );
                }
            },
            Result::Err(e) => {
                proof {
                    if e.kind == ErrorKind::InvalidPath {
                        if paths_ok(iv) {
                            lemma_paths_ok_index(iv, i as int);
                        }
                    } else {
                        lemma_has_pathed_lift(iv, i as int, e.chapter->Some_0@);
                    }
                }
                return Err(e);
            },
        }
        i += 1;
    }
    proof {
        assert(iv.take(orig.len() as int) =~= iv);
    }
    Ok(out)
}

// ---------------------------------------------------------------------------
// Laws of the two passes.
// ---------------------------------------------------------------------------

/// Whether `b` has the same shape as `a`, pathed chapters keep their path,
/// and every chapter of `a` without a path keeps its content in `b`.
pub open spec fn unpathed_preserved_item(a: ItemView, b: ItemView) -> bool
    decreases a,
{
    match a {
        ItemView::Chapter { path, content, sub_items } => {
            &&& b matches ItemView::Chapter { path: bp, content: bc, sub_items: bs }
            &&& bp == path
            &&& (path is None ==> bc == content)
            &&& unpathed_preserved(sub_items, bs)
        },
        ItemView::PartTitle(t) => b == ItemView::PartTitle(t),
        ItemView::Separator => b == ItemView::Separator,
    }
}

/// Whether `b` differs from `a` at most in the contents of pathed chapters.
pub open spec fn unpathed_preserved(a: Seq<ItemView>, b: Seq<ItemView>) -> bool
    decreases a,
{
    &&& a.len() == b.len()
    &&& a.len() > 0 ==> unpathed_preserved(a.drop_last(), b.drop_last()) && unpathed_preserved_item(
        a.last(),
        b.last(),
    )
}

proof fn lemma_unpathed_unchanged_item(
    tpls: Map<Seq<char>, Seq<char>>,
    ctx: Map<Seq<char>, Seq<char>>,
    a: ItemView,
    b: ItemView,
)
    requires
        render_rel_item(tpls, ctx, a, b),
    ensures
        unpathed_preserved_item(a, b),
    decreases a,
{
    match a {
        ItemView::Chapter { path, content, sub_items } => {
            lemma_unpathed_unchanged(tpls, ctx, sub_items, b->sub_items);
        },
        _ => {},
    }
}

/// A chapter with no path is left with its original content unchanged by a
/// successful render pass — it is skipped, not an error — and the pass
/// preserves the shape of the tree and every chapter's path.
pub proof fn lemma_unpathed_unchanged(
    tpls: Map<Seq<char>, Seq<char>>,
    ctx: Map<Seq<char>, Seq<char>>,
    a: Seq<ItemView>,
    b: Seq<ItemView>,
)
    requires
        render_rel(tpls, ctx, a, b),
    ensures
        unpathed_preserved(a, b),
    decreases a,
{
    if a.len() > 0 {
        lemma_unpathed_unchanged(tpls, ctx, a.drop_last(), b.drop_last());
        lemma_unpathed_unchanged_item(tpls, ctx, a.last(), b.last());
    }
}

proof fn lemma_collected_len_item(a: ItemView)
    requires
        item_paths_ok(a),
    ensures
        collected_item(a).len() == item_pathed_count(a),
    decreases a,
{
    match a {
        ItemView::Chapter { path, content, sub_items } => {
            lemma_collected_len(sub_items);
        },
        _ => {},
    }
}

/// On a tree whose paths are portable, the collected list has exactly one
/// entry per pathed chapter.
pub proof fn lemma_collected_len(s: Seq<ItemView>)
    requires
        paths_ok(s),
    ensures
        collected(s).len() == pathed_count(s),
    decreases s,
{
    if s.len() > 0 {
        lemma_collected_len(s.drop_last());
        lemma_collected_len_item(s.last());
    }
}

proof fn lemma_collect_render_aligned_item(
    tpls: Map<Seq<char>, Seq<char>>,
    ctx: Map<Seq<char>, Seq<char>>,
    a: ItemView,
    b: ItemView,
)
    requires
        item_paths_ok(a),
        render_rel_item(tpls, ctx, a, b),
    ensures
        item_paths_ok(b),
        item_pathed_count(b) == item_pathed_count(a),
        collected_item(b).len() == collected_item(a).len(),
        forall|i: int| 0 <= i < collected_item(a).len() ==> (#[trigger] collected_item(b)[i]).0
            == collected_item(a)[i].0,
        forall|i: int|
            0 <= i < collected_item(a).len() ==> tpls.contains_key(
                (#[trigger] collected_item(a)[i]).0,
            ) && engine::tera_render_may(
                tpls,
                ctx,
                collected_item(a)[i].0,
                Some(collected_item(b)[i].1),
            ),
    decreases a,
{
    match a {
        ItemView::Chapter { path, content, sub_items } => {
            lemma_collect_render_aligned(tpls, ctx, sub_items, b->sub_items);
        },
        _ => {},
    }
}

/// `collect` followed by a successful render pass on an unmodified tree with
/// N pathed chapters visits exactly those N chapters, in the same pre-order
/// on both passes — and the order is a function of the tree alone, so it is
/// stable across repeated runs: position by position, the output tree's
/// collected names equal the input tree's, and each output content is a
/// rendering of the template of that name.
pub proof fn lemma_collect_render_aligned(
    tpls: Map<Seq<char>, Seq<char>>,
    ctx: Map<Seq<char>, Seq<char>>,
    a: Seq<ItemView>,
    b: Seq<ItemView>,
)
    requires
        paths_ok(a),
        render_rel(tpls, ctx, a, b),
    ensures
        paths_ok(b),
        collected(a).len() == pathed_count(a),
        pathed_count(b) == pathed_count(a),
        collected(b).len() == collected(a).len(),
        forall|i: int| 0 <= i < collected(a).len() ==> (#[trigger] collected(b)[i]).0 == collected(
            a,
        )[i].0,
        forall|i: int|
            0 <= i < collected(a).len() ==> tpls.contains_key((#[trigger] collected(a)[i]).0)
                && engine::tera_render_may(tpls, ctx, collected(a)[i].0, Some(collected(b)[i].1)),
    decreases a,
{
    lemma_collected_len(a);
    if a.len() > 0 {
        lemma_collect_render_aligned(tpls, ctx, a.drop_last(), b.drop_last());
        lemma_collect_render_aligned_item(tpls, ctx, a.last(), b.last());
        assert forall|i: int| 0 <= i < collected(a).len() implies (#[trigger] collected(b)[i]).0
            == collected(a)[i].0 by {
            if i < collected(a.drop_last()).len() {
                assert(collected(a)[i] == collected(a.drop_last())[i]);
                assert(collected(b)[i] == collected(b.drop_last())[i]);
            } else {
                let k = i - collected(a.drop_last()).len();
                assert(collected(a)[i] == collected_item(a.last())[k]);
                assert(collected(b)[i] == collected_item(b.last())[k]);
            }
        }
        assert forall|i: int|
            0 <= i < collected(a).len() implies tpls.contains_key(
            (#[trigger] collected(a)[i]).0,
        ) && engine::tera_render_may(tpls, ctx, collected(a)[i].0, Some(collected(b)[i].1)) by {
            if i < collected(a.drop_last()).len() {
                assert(collected(a)[i] == collected(a.drop_last())[i]);
                assert(collected(b)[i] == collected(b.drop_last())[i]);
            } else {
                let k = i - collected(a.drop_last()).len();
                assert(collected(a)[i] == collected_item(a.last())[k]);
                assert(collected(b)[i] == collected_item(b.last())[k]);
            }
        }
    }
}

} // verus!
