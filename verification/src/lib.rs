//! Preprocessing stage for a documentation build: every addressable chapter of
//! a document tree is treated as a template and rendered against a data
//! context, together with a library of reusable templates.

use vstd::prelude::*;

pub mod book;
pub mod context;
pub mod engine;
pub mod errors;

use crate::context::ContextSource;
use crate::context::ContextValue;

verus! {

pub use crate::book::BookItem;
pub use crate::book::Chapter;
pub use crate::context::StaticContextSource;
pub use crate::context::WatchedContextSource;
pub use crate::errors::Error;
pub use crate::errors::ErrorKind;

/// The render context of a run: the host metadata under the reserved key
/// `ctx`, then the context source's snapshot merged in, the source's keys
/// winning on collision.
pub open spec fn run_context(metadata: Seq<char>, source: Map<Seq<char>, Seq<char>>) -> Map<
    Seq<char>,
    Seq<char>,
> {
    Map::empty().insert("ctx"@, metadata).union_prefer_right(source)
}

/// For any context expressed equivalently in both accepted serialized
/// formats — the JSON text and the TOML text parse to the same top-level
/// value map — the resulting render context of a run is identical: the run
/// context depends on the source text only through the mapping it parses to.
pub proof fn lemma_context_format_agnostic(
    json_text: Seq<char>,
    toml_text: Seq<char>,
    metadata: Seq<char>,
)
    requires
        engine::json_object_entries(json_text) is Some,
        engine::toml_table_entries(toml_text) is Some,
        engine::pairs_map(engine::json_object_entries(json_text)->Some_0) == engine::pairs_map(
            engine::toml_table_entries(toml_text)->Some_0,
        ),
    ensures
        run_context(metadata, engine::pairs_map(engine::json_object_entries(json_text)->Some_0))
            == run_context(
            metadata,
            engine::pairs_map(engine::toml_table_entries(toml_text)->Some_0),
        ),
{
}

/// A preprocessor that renders every pathed chapter of a document tree as a
/// template, against a library of included templates and a context source.
///
/// The engine inside is never handed out raw: templates enter only through
/// `include_templates`, which keeps every registration batched and checked,
/// and leave only as rendered text.
pub struct TeraPreprocessor<C = StaticContextSource> {
    tera: tera::Tera,
    context: C,
}

impl<C> TeraPreprocessor<C> {
    /// The templates included so far: a mapping from name to source text.
    pub closed spec fn templates(self) -> Map<Seq<char>, Seq<char>> {
        engine::tera_templates(self.tera)
    }

    /// The context source the preprocessor was built with.
    pub closed spec fn source(self) -> C {
        self.context
    }

    /// Construct a preprocessor given a context source; it holds no
    /// templates yet.
    pub fn new(context: C) -> (r: Self)
        ensures
            r.templates() == engine::empty_str_map(),
            r.source() == context,
    {
        TeraPreprocessor { context, tera: engine::tera_empty() }
    }

    /// Registers (name, source) templates as one atomic batch: a template
    /// inheriting from a parent finds it anywhere in the combined set,
    /// whichever was registered first. The call fails with `Inheritance`
    /// exactly when the combined set does not compile, and then leaves the
    /// library as it was: the batch goes into a duplicate of the engine,
    /// which replaces the original only on success.
    pub fn include_templates(&mut self, batch: &Vec<(String, String)>) -> (r: Result<(), Error>)
        ensures
            (r is Ok) == engine::tera_batch_ok(old(self).templates(), batch.deep_view()),
            r is Ok ==> final(self).templates() == old(self).templates().union_prefer_right(
                engine::pairs_map(batch.deep_view()),
            ),
            r is Err ==> final(self).templates() == old(self).templates(),
            final(self).source() == old(self).source(),
            r is Err ==> r->Err_0.kind == ErrorKind::Inheritance && r->Err_0.chapter is None,
    {
        let mut scratch = engine::tera_duplicate(&self.tera);
        match engine::tera_add_raw_templates(&mut scratch, batch) {
            Result::Ok(()) => {
                self.tera = scratch;
                Ok(())
            },
            Result::Err(()) => Err(Error::new(ErrorKind::Inheritance)),
        }
    }

    /// Evaluates one registered template against a context: `NotFound`
    /// exactly when no template of that name is registered, `Eval` when the
    /// template fails to evaluate.
    pub fn render_template(&self, name: &str, context: &ContextValue) -> (r: Result<String, Error>)
        ensures
            r is Ok ==> self.templates().contains_key(name@) && engine::tera_render_may(
                self.templates(),
                context@,
                name@,
                Some(r->Ok_0@),
            ),
            r is Err ==> engine::tera_render_may(self.templates(), context@, name@, None),
            r is Err ==> r->Err_0.kind == ErrorKind::NotFound || r->Err_0.kind == ErrorKind::Eval,
            !self.templates().contains_key(name@) ==> r is Err && r->Err_0.kind
                == ErrorKind::NotFound,
            r is Err ==> r->Err_0.chapter is None,
    {
        proof {
            use_type_invariant(context);
        }
        match engine::tera_render_template(&self.tera, name, context) {
            Result::Ok(text) => Ok(text),
            Result::Err(kind) => Err(Error::new(kind)),
        }
    }
}

impl<C: Default> Default for TeraPreprocessor<C> {
    /// A preprocessor over the default context source, with no templates.
    fn default() -> (r: Self)
        ensures
            r.templates() == engine::empty_str_map(),
    {
        TeraPreprocessor::new(C::default())
    }
}

impl<C: ContextSource> TeraPreprocessor<C> {
    /// One run over a document tree: build the render context (host metadata
    /// under the reserved key `ctx`, then the source's snapshot, source keys
    /// winning), register the tree's own pathed chapters as one template
    /// batch on a scratch copy of the included library, and render every
    /// pathed chapter in place. The first failure aborts the whole run — no
    /// partial tree is ever returned.
    pub fn run(&self, host_metadata_json: &str, book: Vec<BookItem>) -> (r: Result<
        Vec<BookItem>,
        Error,
    >)
        ensures
            r is Ok ==> engine::json_valid(host_metadata_json@) && book::paths_ok(
                book::items_view(book@),
            ) && engine::tera_batch_ok(
                self.templates(),
                book::collected(book::items_view(book@)),
            ) && book::render_rel(
                self.templates().union_prefer_right(
                    engine::pairs_map(book::collected(book::items_view(book@))),
                ),
                run_context(host_metadata_json@, self.source().spec_context()),
                book::items_view(book@),
                book::items_view(r->Ok_0@),
            ),
            !engine::json_valid(host_metadata_json@) ==> r is Err && r->Err_0.kind
                == ErrorKind::Parse,
            r is Err && r->Err_0.kind == ErrorKind::Parse ==> !engine::json_valid(
                host_metadata_json@,
            ),
            engine::json_valid(host_metadata_json@) && !book::paths_ok(book::items_view(book@))
                ==> r is Err && r->Err_0.kind == ErrorKind::InvalidPath,
            r is Err && r->Err_0.kind == ErrorKind::InvalidPath ==> !book::paths_ok(
                book::items_view(book@),
            ),
            engine::json_valid(host_metadata_json@) && book::paths_ok(book::items_view(book@))
                && !engine::tera_batch_ok(
                self.templates(),
                book::collected(book::items_view(book@)),
            ) ==> r is Err && r->Err_0.kind == ErrorKind::Inheritance,
            r is Err && r->Err_0.kind == ErrorKind::Inheritance ==> !engine::tera_batch_ok(
                self.templates(),
                book::collected(book::items_view(book@)),
            ),
            r is Err && (r->Err_0.kind == ErrorKind::NotFound || r->Err_0.kind == ErrorKind::Eval)
                ==> r->Err_0.chapter is Some && book::has_pathed_named(
                book::items_view(book@),
                r->Err_0.chapter->Some_0@,
            ) && engine::tera_render_may(
                self.templates().union_prefer_right(
                    engine::pairs_map(book::collected(book::items_view(book@))),
                ),
                run_context(host_metadata_json@, self.source().spec_context()),
                r->Err_0.chapter->Some_0@,
                None,
            ),
            r is Err ==> r->Err_0.kind == ErrorKind::Parse || r->Err_0.kind
                == ErrorKind::InvalidPath || r->Err_0.kind == ErrorKind::Inheritance
                || r->Err_0.kind == ErrorKind::NotFound || r->Err_0.kind == ErrorKind::Eval,
    {
        if !engine::is_valid_json(host_metadata_json) {
            return Err(Error::new(ErrorKind::Parse));
        }
        let mut chapter_templates: Vec<(String, String)> = Vec::new();
        proof {
            assert(chapter_templates.deep_view() =~= Seq::<(Seq<char>, Seq<char>)>::empty());
        }
        match book::collect_item_chapters(&mut chapter_templates, &book) {
            Result::Err(e) => {
                return Err(e);
            },
            Result::Ok(()) => {},
        }
        proof {
            assert(chapter_templates.deep_view() =~= book::collected(book::items_view(book@)));
        }
        let mut ctx = ContextValue::empty();
        let inserted = ctx.insert_json("ctx", host_metadata_json);
        proof {
            assert(inserted is Ok);
        }
        let source_ctx = self.context.context();
        ctx.merge_from(&source_ctx);
        proof {
            assert(ctx@ == run_context(host_metadata_json@, self.source().spec_context()));
        }
        let mut scratch = engine::tera_duplicate(&self.tera);
        match engine::tera_add_raw_templates(&mut scratch, &chapter_templates) {
            Result::Err(()) => {
                return Err(Error::new(ErrorKind::Inheritance));
            },
            Result::Ok(()) => {},
        }
        book::render_item_chapters(&scratch, &ctx, book)
    }
}

} // verus!
