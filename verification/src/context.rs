//! Context sources: the data namespace templates are rendered against.

use vstd::prelude::*;
use vstd::pervasive::VecAdditionalExecFns;

use crate::engine;
use crate::errors::Error;
use crate::errors::ErrorKind;

verus! {

// ---------------------------------------------------------------------------
// Lemmas about the mapping a pair sequence denotes.
// ---------------------------------------------------------------------------

proof fn lemma_pairs_map_index(s: Seq<(Seq<char>, Seq<char>)>, i: int)
    requires
        engine::pairs_keys_unique(s),
        0 <= i < s.len(),
    ensures
        engine::pairs_map(s).contains_key(s[i].0),
        engine::pairs_map(s)[s[i].0] == s[i].1,
    decreases s.len(),
{
    if i < s.len() - 1 {
        assert forall|a: int, b: int| 0 <= a < b < s.drop_last().len() implies (#[trigger] s
            .drop_last()[a]).0 != (#[trigger] s.drop_last()[b]).0 by {
            assert(s.drop_last()[a] == s[a]);
            assert(s.drop_last()[b] == s[b]);
        }
        lemma_pairs_map_index(s.drop_last(), i);
        assert(s.drop_last()[i] == s[i]);
        assert(s.last() == s[s.len() - 1]);
        assert(s.last().0 != s[i].0);
    }
}

proof fn lemma_pairs_map_absent(s: Seq<(Seq<char>, Seq<char>)>, k: Seq<char>)
    requires
        forall|j: int| 0 <= j < s.len() ==> (#[trigger] s[j]).0 != k,
    ensures
        !engine::pairs_map(s).contains_key(k),
    decreases s.len(),
{
    if s.len() > 0 {
        assert forall|j: int| 0 <= j < s.drop_last().len() implies (#[trigger] s.drop_last()[j]).0
            != k by {
            assert(s.drop_last()[j] == s[j]);
        }
        lemma_pairs_map_absent(s.drop_last(), k);
        assert(s.last() == s[s.len() - 1]);
    }
}

proof fn lemma_pairs_map_update(s: Seq<(Seq<char>, Seq<char>)>, i: int, p: (Seq<char>, Seq<char>))
    requires
        engine::pairs_keys_unique(s),
        0 <= i < s.len(),
        p.0 == s[i].0,
    ensures
        engine::pairs_map(s.update(i, p)) == engine::pairs_map(s).insert(p.0, p.1),
    decreases s.len(),
{
    let s2 = s.update(i, p);
    if i == s.len() - 1 {
        assert(s2.drop_last() =~= s.drop_last());
        assert(s2.last() == p);
        assert(s.last() == s[i]);
        assert(engine::pairs_map(s2) =~= engine::pairs_map(s).insert(p.0, p.1));
    } else {
        assert forall|a: int, b: int| 0 <= a < b < s.drop_last().len() implies (#[trigger] s
            .drop_last()[a]).0 != (#[trigger] s.drop_last()[b]).0 by {
            assert(s.drop_last()[a] == s[a]);
            assert(s.drop_last()[b] == s[b]);
        }
        assert(s2.drop_last() =~= s.drop_last().update(i, p)) by {
            assert(s2.drop_last().len() == s.drop_last().len());
        }
        assert(s.drop_last()[i] == s[i]);
        lemma_pairs_map_update(s.drop_last(), i, p);
        assert(s2.last() == s.last());
        assert(s.last() == s[s.len() - 1]);
        assert(s.last().0 != p.0);
        assert(engine::pairs_map(s2) =~= engine::pairs_map(s).insert(p.0, p.1));
    }
}

proof fn lemma_pairs_map_push(s: Seq<(Seq<char>, Seq<char>)>, p: (Seq<char>, Seq<char>))
    ensures
        engine::pairs_map(s.push(p)) == engine::pairs_map(s).insert(p.0, p.1),
{
    assert(s.push(p).drop_last() =~= s);
    assert(s.push(p).last() == p);
}

proof fn lemma_pairs_map_take_step(s: Seq<(Seq<char>, Seq<char>)>, i: int)
    requires
        0 <= i < s.len(),
    ensures
        engine::pairs_map(s.take(i + 1)) == engine::pairs_map(s.take(i)).insert(s[i].0, s[i].1),
{
    assert(s.take(i + 1).drop_last() =~= s.take(i));
    assert(s.take(i + 1).last() == s[i]);
}

proof fn lemma_union_insert(
    m1: Map<Seq<char>, Seq<char>>,
    m2: Map<Seq<char>, Seq<char>>,
    k: Seq<char>,
    v: Seq<char>,
)
    ensures
        m1.union_prefer_right(m2.insert(k, v)) == m1.union_prefer_right(m2).insert(k, v),
{
    assert(m1.union_prefer_right(m2.insert(k, v)) =~= m1.union_prefer_right(m2).insert(k, v));
}

// ---------------------------------------------------------------------------
// The context value.
// ---------------------------------------------------------------------------

/// A render context: a mapping from top-level keys to structured values, each
/// value held as JSON text. Denotes the mapping `self@`.
#[derive(Debug)]
pub struct ContextValue {
    pub(crate) entries: Vec<(String, String)>,
}

impl ContextValue {
    /// The entries as a sequence of (key, value-text) pairs.
    pub closed spec fn entries_seq(self) -> Seq<(Seq<char>, Seq<char>)> {
        self.entries.deep_view()
    }

    /// Keys are unique and every value text parses as JSON; holds of every
    /// context value.
    #[verifier::type_invariant]
    pub open spec fn type_inv(self) -> bool {
        engine::pairs_keys_unique(self.entries_seq()) && engine::pairs_values_json(
            self.entries_seq(),
        )
    }

    /// The empty context.
    pub fn empty() -> (r: ContextValue)
        ensures
            r@ == engine::empty_str_map(),
    {
        let entries: Vec<(String, String)> = Vec::new();
        proof {
            assert(entries.deep_view() =~= Seq::<(Seq<char>, Seq<char>)>::empty());
        }
        ContextValue { entries }
    }

    /// Inserts `value_text` (which must be JSON text) under `key`, replacing
    /// any earlier value of that key; a text that is not JSON is rejected
    /// with a `Parse` error and the context is left unchanged.
    pub fn insert_json(&mut self, key: &str, value_text: &str) -> (r: Result<(), Error>)
        ensures
            (r is Ok) == engine::json_valid(value_text@),
            r is Ok ==> final(self)@ == old(self)@.insert(key@, value_text@),
            r is Err ==> *final(self) == *old(self) && r->Err_0.kind == ErrorKind::Parse,
    {
        proof {
            use_type_invariant(&*self);
        }
        if !engine::is_valid_json(value_text) {
            return Err(Error::new(ErrorKind::Parse));
        }
        let key_owned: String = key.to_owned();
        let value_owned: String = value_text.to_owned();
        let ghost s = self.entries_seq();
        let mut idx: usize = 0;
        let mut found: bool = false;
        while idx < self.entries.len() && !found
            invariant
                idx <= self.entries.len(),
                *self == *old(self),
                s == self.entries_seq(),
                key_owned@ == key@,
                !found ==> forall|j: int| 0 <= j < idx ==> (#[trigger] s[j]).0 != key@,
                found ==> idx < s.len() && s[idx as int].0 == key@,
            decreases self.entries.len() - idx + (if found { 0int } else { 1int }),
        {
            if self.entries[idx].0 == key_owned {
                found = true;
            } else {
                idx += 1;
            }
        }
        let mut entries: Vec<(String, String)> = Vec::new();
        proof {
            assert(entries.deep_view() =~= Seq::<(Seq<char>, Seq<char>)>::empty());
        }
        core::mem::swap(&mut entries, &mut self.entries);
        if found {
            proof {
                lemma_pairs_map_update(s, idx as int, (key@, value_text@));
            }
            entries.set(idx, (key_owned, value_owned));
            proof {
                assert(entries.deep_view() =~= s.update(idx as int, (key@, value_text@)));
                assert forall|a: int, b: int|
                    0 <= a < b < entries.deep_view().len() implies (#[trigger] entries
                    .deep_view()[a]).0 != (#[trigger] entries.deep_view()[b]).0 by {
                    assert((s[a].0 == entries.deep_view()[a].0) && (s[b].0
                        == entries.deep_view()[b].0));
                }
            }
        } else {
            proof {
                lemma_pairs_map_push(s, (key@, value_text@));
            }
            entries.push((key_owned, value_owned));
            proof {
                assert(entries.deep_view() =~= s.push((key@, value_text@)));
                assert forall|a: int, b: int|
                    0 <= a < b < entries.deep_view().len() implies (#[trigger] entries
                    .deep_view()[a]).0 != (#[trigger] entries.deep_view()[b]).0 by {
                    if b < s.len() {
                        assert(s[a].0 != s[b].0);
                    } else {
                        assert(s[a].0 != key@);
                    }
                }
            }
        }
        self.entries = entries;
        Ok(())
    }

    /// Adds every entry of `other` to `self`; on a shared key, `other`'s
    /// value wins.
    pub fn merge_from(&mut self, other: &ContextValue)
        ensures
            final(self)@ == old(self)@.union_prefer_right(other@),
    {
        proof {
            use_type_invariant(other);
        }
        let ghost os = other.entries_seq();
        let mut i: usize = 0;
        while i < other.entries.len()
            invariant
                i <= other.entries.len(),
                os == other.entries_seq(),
                engine::pairs_keys_unique(os),
                engine::pairs_values_json(os),
                self@ == old(self)@.union_prefer_right(engine::pairs_map(os.take(i as int))),
            decreases other.entries.len() - i,
        {
            let ghost prev = self@;
            let r = self.insert_json(other.entries[i].0.as_str(), other.entries[i].1.as_str());
            proof {
                assert(os[i as int] == (other.entries@[i as int].0@, other.entries@[i as int].1@));
                assert(engine::json_valid(os[i as int].1));
                assert(r is Ok);
                lemma_pairs_map_take_step(os, i as int);
                lemma_union_insert(
                    old(self)@,
                    engine::pairs_map(os.take(i as int)),
                    os[i as int].0,
                    os[i as int].1,
                );
            }
            i += 1;
        }
        proof {
            assert(os.take(other.entries@.len() as int) =~= os);
            assert(engine::pairs_map(os) == other@);
        }
    }

    /// Looks a key up; `Some` exactly on the keys of the context.
    pub fn get(&self, key: &str) -> (r: Option<&String>)
        ensures
            (r is Some) == self@.contains_key(key@),
            r is Some ==> r->Some_0@ == self@[key@],
    {
        proof {
            use_type_invariant(self);
        }
        let ghost s = self.entries_seq();
        let key_owned: String = key.to_owned();
        let mut i: usize = 0;
        while i < self.entries.len()
            invariant
                i <= self.entries.len(),
                s == self.entries_seq(),
                engine::pairs_keys_unique(s),
                key_owned@ == key@,
                forall|j: int| 0 <= j < i ==> (#[trigger] s[j]).0 != key@,
            decreases self.entries.len() - i,
        {
            if self.entries[i].0 == key_owned {
                proof {
                    lemma_pairs_map_index(s, i as int);
                }
                return Some(&self.entries[i].1);
            }
            i += 1;
        }
        proof {
            lemma_pairs_map_absent(s, key@);
        }
        None
    }

    /// A copy denoting the same mapping.
    pub fn snapshot(&self) -> (r: ContextValue)
        ensures
            r@ == self@,
    {
        proof {
            use_type_invariant(self);
        }
        let mut entries: Vec<(String, String)> = Vec::new();
        let mut i: usize = 0;
        while i < self.entries.len()
            invariant
                i <= self.entries.len(),
                entries.len() == i,
                forall|j: int| 0 <= j < i ==> (#[trigger] entries@[j]).deep_view()
                    == self.entries_seq()[j],
            decreases self.entries.len() - i,
        {
            let ghost prev = entries@;
            let k = self.entries[i].0.clone();
            let v = self.entries[i].1.clone();
            entries.push((k, v));
            proof {
                assert(entries@[i as int] == (k, v));
                assert((k, v).deep_view() == (k@, v@));
                assert(self.entries_seq()[i as int] == self.entries@[i as int].deep_view());
                assert(forall|j: int| 0 <= j < i ==> entries@[j] == prev[j]);
            }
            i += 1;
        }
        proof {
            assert(entries.deep_view() =~= self.entries_seq());
        }
        let r = ContextValue { entries };
        proof {
            assert(r@ == self@);
        }
        r
    }
}

impl View for ContextValue {
    type V = Map<Seq<char>, Seq<char>>;

    closed spec fn view(&self) -> Map<Seq<char>, Seq<char>> {
        engine::pairs_map(self.entries_seq())
    }
}

// ---------------------------------------------------------------------------
// Context sources.
// ---------------------------------------------------------------------------

/// A context source for the preprocessor.
pub trait ContextSource {
    /// The mapping the source currently denotes.
    spec fn spec_context(&self) -> Map<Seq<char>, Seq<char>>;

    /// Returns a snapshot of the current context.
    fn context(&self) -> (r: ContextValue)
        ensures
            r@ == self.spec_context(),
    ;
}

/// Static context source: loaded once, immutable afterwards.
#[derive(Debug)]
pub struct StaticContextSource {
    context: ContextValue,
}

impl ContextSource for StaticContextSource {
    closed spec fn spec_context(&self) -> Map<Seq<char>, Seq<char>> {
        self.context@
    }

    fn context(&self) -> (r: ContextValue) {
        self.context.snapshot()
    }
}

impl StaticContextSource {
    /// Construct a context source given a context value.
    pub fn new(context: ContextValue) -> (r: Self)
        ensures
            r.spec_context() == context@,
    {
        StaticContextSource { context }
    }

    /// Construct a context source from JSON text; the text must be a JSON
    /// object, else a `Parse` error.
    pub fn from_json_str(text: &str) -> (r: Result<Self, Error>)
        ensures
            (r is Ok) == (engine::json_object_entries(text@) is Some),
            r is Ok ==> r->Ok_0.spec_context() == engine::pairs_map(
                engine::json_object_entries(text@)->Some_0,
            ),
            r is Err ==> r->Err_0.kind == ErrorKind::Parse,
    {
        match engine::parse_json_object(text) {
            Some(entries) => Ok(StaticContextSource { context: ContextValue { entries } }),
            None => Err(Error::new(ErrorKind::Parse)),
        }
    }

    /// Construct a context source from TOML text; the text must be a TOML
    /// document each of whose top-level values, re-serialized, is JSON the
    /// context can hold, else a `Parse` error.
    pub fn from_toml_str(text: &str) -> (r: Result<Self, Error>)
        ensures
            (r is Ok) == (engine::toml_table_entries(text@) is Some
                && engine::pairs_values_json(engine::toml_table_entries(text@)->Some_0)),
            r is Ok ==> r->Ok_0.spec_context() == engine::pairs_map(
                engine::toml_table_entries(text@)->Some_0,
            ),
            r is Err ==> r->Err_0.kind == ErrorKind::Parse,
    {
        let entries = match engine::parse_toml_table(text) {
            Some(entries) => entries,
            None => {
                return Err(Error::new(ErrorKind::Parse));
            },
        };
        let ghost es = entries.deep_view();
        let mut i: usize = 0;
        while i < entries.len()
            invariant
                i <= entries.len(),
                es == entries.deep_view(),
                es == engine::toml_table_entries(text@)->Some_0,
                engine::toml_table_entries(text@) is Some,
                forall|j: int| 0 <= j < i ==> engine::json_valid((#[trigger] es[j]).1),
            decreases entries.len() - i,
        {
            if !engine::is_valid_json(entries[i].1.as_str()) {
                proof {
                    assert(!engine::json_valid(es[i as int].1));
                }
                return Err(Error::new(ErrorKind::Parse));
            }
            i += 1;
        }
        Ok(StaticContextSource { context: ContextValue { entries } })
    }
}

impl Default for StaticContextSource {
    /// The empty static source.
    fn default() -> (r: Self)
        ensures
            r.spec_context() == engine::empty_str_map(),
    {
        StaticContextSource::new(ContextValue::empty())
    }
}

/// The context a watched source denotes after a serial sequence of reload
/// outcomes, oldest first: the last successful load's value, or `initial`
/// while none has succeeded — a failed reload leaves no trace.
pub open spec fn after_reloads(
    initial: Map<Seq<char>, Seq<char>>,
    outcomes: Seq<Option<Map<Seq<char>, Seq<char>>>>,
) -> Map<Seq<char>, Seq<char>>
    decreases outcomes.len(),
{
    if outcomes.len() == 0 {
        initial
    } else {
        match outcomes.last() {
            Option::Some(m) => m,
            Option::None => after_reloads(initial, outcomes.drop_last()),
        }
    }
}

/// The spec-level outcome of each reload of a batch: the loaded mapping, or
/// nothing for a failed load.
pub open spec fn load_outcomes(loads: Seq<Result<ContextValue, Error>>) -> Seq<
    Option<Map<Seq<char>, Seq<char>>>,
>
    decreases loads.len(),
{
    if loads.len() == 0 {
        Seq::empty()
    } else {
        load_outcomes(loads.drop_last()).push(
            match loads.last() {
                Result::Ok(v) => Option::Some(v@),
                Result::Err(_) => Option::None,
            },
        )
    }
}

proof fn lemma_load_outcomes_take_step(s: Seq<Result<ContextValue, Error>>, i: int)
    requires
        0 <= i < s.len(),
    ensures
        load_outcomes(s.take(i + 1)) == load_outcomes(s.take(i)).push(
            (match s[i] {
                Result::Ok(v) => Option::Some(v@),
                Result::Err(_) => Option::None,
            }),
        ),
{
    assert(s.take(i + 1).drop_last() =~= s.take(i));
    assert(s.take(i + 1).last() == s[i]);
}

/// Watched context source: the same load logic behind a replaceable cell,
/// refreshed by a file-watch callback. This type holds the reload policy;
/// the watch thread and the lock around the cell are the embedding's
/// business.
#[derive(Debug)]
pub struct WatchedContextSource {
    current: ContextValue,
}

impl ContextSource for WatchedContextSource {
    closed spec fn spec_context(&self) -> Map<Seq<char>, Seq<char>> {
        self.current@
    }

    fn context(&self) -> (r: ContextValue) {
        self.current.snapshot()
    }
}

impl WatchedContextSource {
    /// Construct a watched source holding `initial`.
    pub fn new(initial: ContextValue) -> (r: Self)
        ensures
            r.spec_context() == initial@,
    {
        WatchedContextSource { current: initial }
    }

    /// Applies the outcome of a reload: a successful load replaces the held
    /// value; a failed load leaves the previous value in place
    /// (stale-but-valid), and never surfaces an error to readers.
    pub fn apply_reload(&mut self, loaded: Result<ContextValue, Error>)
        ensures
            loaded matches Ok(v) ==> final(self).spec_context() == v@,
            loaded is Err ==> final(self).spec_context() == old(self).spec_context(),
    {
        match loaded {
            Ok(v) => {
                self.current = v;
            },
            Err(_) => {},
        }
    }

    /// Applies a serial sequence of reload outcomes, oldest first, as a
    /// watch callback would deliver them one at a time: readers afterwards
    /// see exactly the last successfully loaded value — the fully-updated
    /// value, never a mix of old and new — or the value held before, while
    /// none has succeeded.
    pub fn apply_reloads(&mut self, loads: Vec<Result<ContextValue, Error>>)
        ensures
            final(self).spec_context() == after_reloads(
                old(self).spec_context(),
                load_outcomes(loads@),
            ),
    {
        let ghost orig = loads@;
        let n = loads.len();
        let mut rest = loads;
        let mut i: usize = 0;
        while rest.len() > 0
            invariant
                i + rest@.len() == orig.len(),
                orig.len() == n,
                rest@ =~= orig.skip(i as int),
                self.spec_context() == after_reloads(
                    old(self).spec_context(),
                    load_outcomes(orig.take(i as int)),
                ),
            decreases rest@.len(),
        {
            let it = rest.remove(0);
            proof {
                assert(it == orig[i as int]);
                lemma_load_outcomes_take_step(orig, i as int);
            }
            self.apply_reload(it);
            proof {
                assert(load_outcomes(orig.take(i + 1 as int)).drop_last() =~= load_outcomes(
                    orig.take(i as int),
                ));
            }
            i += 1;
        }
        proof {
            assert(orig.take(orig.len() as int) =~= orig);
        }
    }

    /// Re-reads the source from JSON text: a well-formed rewrite replaces the
    /// held value, a malformed one leaves the previous value in place. The
    /// result reports whether the value was refreshed; no error is ever
    /// returned to a reader.
    pub fn reload_from_json_str(&mut self, text: &str) -> (refreshed: bool)
        ensures
            refreshed == (engine::json_object_entries(text@) is Some),
            refreshed ==> final(self).spec_context() == engine::pairs_map(
                engine::json_object_entries(text@)->Some_0,
            ),
            !refreshed ==> final(self).spec_context() == old(self).spec_context(),
    {
        match StaticContextSource::from_json_str(text) {
            Ok(src) => {
                let v = src.context();
                self.apply_reload(Ok(v));
                true
            },
            Err(e) => {
                self.apply_reload(Err(e));
                false
            },
        }
    }
}

/// Whether a file-change event is about the watched source: its set of
/// changed paths contains the source path exactly.
pub fn event_selects_source(changed: &Vec<String>, source: &str) -> (r: bool)
    ensures
        r == changed.deep_view().contains(source@),
{
    let source_owned: String = source.to_owned();
    let mut i: usize = 0;
    while i < changed.len()
        invariant
            i <= changed.len(),
            source_owned@ == source@,
            forall|j: int| 0 <= j < i ==> changed.deep_view()[j] != source@,
        decreases changed.len() - i,
    {
        if changed[i] == source_owned {
            proof {
                assert(changed.deep_view()[i as int] == source@);
            }
            return true;
        }
        i += 1;
    }
    proof {
        assert forall|j: int| 0 <= j < changed.deep_view().len() implies changed.deep_view()[j]
            != source@ by {}
    }
    false
}

// ---------------------------------------------------------------------------
// Choosing the context source from the command surface.
// ---------------------------------------------------------------------------

/// Which context source a run should use.
#[derive(Debug)]
pub enum ContextChoice {
    /// Load the JSON file at the given path.
    JsonFile(String),
    /// Load the TOML file at the given path.
    TomlFile(String),
    /// No file named: load the default TOML file, which exists.
    DefaultToml,
    /// No file named and no default present: start from the empty context.
    Empty,
}

/// Decides the context source from the mutually exclusive options. Supplying
/// both a JSON and a TOML path is a `Configuration` error, detected before
/// any file is read.
pub fn choose_context_source(
    json: Option<String>,
    toml: Option<String>,
    default_exists: bool,
) -> (r: Result<ContextChoice, Error>)
    ensures
        (r is Err) == (json is Some && toml is Some),
        r is Err ==> r->Err_0.kind == ErrorKind::Configuration,
        json is Some && toml is None ==> r is Ok && r->Ok_0 == ContextChoice::JsonFile(
            json->Some_0,
        ),
        json is None && toml is Some ==> r is Ok && r->Ok_0 == ContextChoice::TomlFile(
            toml->Some_0,
        ),
        json is None && toml is None && default_exists ==> r is Ok && r->Ok_0
            == ContextChoice::DefaultToml,
        json is None && toml is None && !default_exists ==> r is Ok && r->Ok_0
            == ContextChoice::Empty,
{
    match (json, toml) {
        (Some(_), Some(_)) => Err(Error::new(ErrorKind::Configuration)),
        (Some(j), None) => Ok(ContextChoice::JsonFile(j)),
        (None, Some(t)) => Ok(ContextChoice::TomlFile(t)),
        (None, None) => {
            if default_exists {
                Ok(ContextChoice::DefaultToml)
            } else {
                Ok(ContextChoice::Empty)
            }
        },
    }
}

} // verus!
