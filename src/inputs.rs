//! The coalesced inputs: an ordered mapping from key to value, where a later
//! write to a key replaces the earlier value in place.

use vstd::prelude::*;

use indexmap::IndexMap;
use wdl_engine::Value;

use crate::file::{content_failure, content_inputs, InputFile};
use crate::grammar::{
    count_char, key_text, lemma_position, lemma_position_facts, position, value_text,
};
use crate::input::{pair_error, pair_ok, pair_value, Error, Input};
use crate::outside::{index_entries, index_insert, index_new, index_of};

verus! {

/// The keys of an ordered mapping, in order.
pub open spec fn keys(m: Seq<(Seq<char>, Value)>) -> Seq<Seq<char>> {
    m.map_values(|e: (Seq<char>, Value)| e.0)
}

/// The view of a sequence of members.
pub open spec fn entries_view(m: Seq<(String, Value)>) -> Seq<(Seq<char>, Value)> {
    m.map_values(|e: (String, Value)| (e.0@, e.1))
}

/// `m` with `k` set to `v`: in place where `k` is a key, last otherwise.
pub open spec fn put(m: Seq<(Seq<char>, Value)>, k: Seq<char>, v: Value) -> Seq<(Seq<char>, Value)> {
    let i = position(keys(m), k);
    if i < m.len() {
        m.update(i as int, (k, v))
    } else {
        m.push((k, v))
    }
}

/// `m` with every entry of `es` put in turn.
pub open spec fn put_all(m: Seq<(Seq<char>, Value)>, es: Seq<(Seq<char>, Value)>) -> Seq<
    (Seq<char>, Value),
>
    decreases es.len(),
{
    if es.len() == 0 {
        m
    } else {
        let p = put_all(m, es.drop_last());
        put(p, es.last().0, es.last().1)
    }
}

/// The keys `ks` with `k` added last where it is not among them.
pub open spec fn put_key(ks: Seq<Seq<char>>, k: Seq<char>) -> Seq<Seq<char>> {
    if position(ks, k) < ks.len() {
        ks
    } else {
        ks.push(k)
    }
}

/// Whether the keys of `m` are distinct.
pub open spec fn distinct_keys(m: Seq<(Seq<char>, Value)>) -> bool {
    forall|i: int, j: int| 0 <= i < m.len() && 0 <= j < m.len() && i != j ==> m[i].0 != m[j].0
}

/// Putting entries with distinct keys, in turn, into an empty mapping gives
/// those entries, in order.
pub proof fn lemma_put_all_distinct(m: Seq<(Seq<char>, Value)>)
    requires
        distinct_keys(m),
    ensures
        put_all(Seq::empty(), m) == m,
    decreases m.len(),
{
    if m.len() == 0 {
    } else {
        let d = m.drop_last();
        assert(distinct_keys(d));
        lemma_put_all_distinct(d);
        assert forall|j: int| 0 <= j < d.len() implies keys(d)[j] != m.last().0 by {
            assert(m[j] == d[j]);
        }
        lemma_position(keys(d), m.last().0, d.len() as int);
        assert(d.push(m.last()) =~= m);
    }
}

/// The value that `m` holds for `k`.
pub open spec fn lookup(m: Seq<(Seq<char>, Value)>, k: Seq<char>) -> Option<Value> {
    let i = position(keys(m), k);
    if i < m.len() {
        Some(m[i as int].1)
    } else {
        None
    }
}

/// The value of the last entry of `es` whose key is `k`.
pub open spec fn last_value(es: Seq<(Seq<char>, Value)>, k: Seq<char>) -> Option<Value>
    decreases es.len(),
{
    if es.len() == 0 {
        None
    } else if es.last().0 == k {
        Some(es.last().1)
    } else {
        last_value(es.drop_last(), k)
    }
}

/// The mapping built from `sources`, each put in turn over those before it.
pub open spec fn fold_sources(sources: Seq<Seq<(Seq<char>, Value)>>) -> Seq<(Seq<char>, Value)>
    decreases sources.len(),
{
    if sources.len() == 0 {
        Seq::empty()
    } else {
        put_all(fold_sources(sources.drop_last()), sources.last())
    }
}

/// The value for `k` in the last of `sources` that has `k`.
pub open spec fn last_source_value(sources: Seq<Seq<(Seq<char>, Value)>>, k: Seq<char>) -> Option<
    Value,
>
    decreases sources.len(),
{
    if sources.len() == 0 {
        None
    } else {
        match last_value(sources.last(), k) {
            Some(v) => Some(v),
            None => last_source_value(sources.drop_last(), k),
        }
    }
}

/// Putting an entry changes the keys as adding its key to them does.
pub proof fn lemma_put_keys(m: Seq<(Seq<char>, Value)>, k: Seq<char>, v: Value)
    ensures
        keys(put(m, k, v)) == put_key(keys(m), k),
{
    lemma_position_facts(keys(m), k);
    let i = position(keys(m), k);
    if i < m.len() {
        assert(keys(m.update(i as int, (k, v))) =~= keys(m));
    } else {
        assert(keys(m.push((k, v))) =~= keys(m).push(k));
    }
}

/// After a put, the key put holds the value put, and every other key holds
/// what it held before.
pub proof fn lemma_lookup_put(m: Seq<(Seq<char>, Value)>, k: Seq<char>, v: Value, q: Seq<char>)
    ensures
        lookup(put(m, k, v), q) == if q == k {
            Some(v)
        } else {
            lookup(m, q)
        },
{
    let ks = keys(m);
    let i = position(ks, k);
    let j = position(ks, q);
    lemma_position_facts(ks, k);
    lemma_position_facts(ks, q);
    lemma_put_keys(m, k, v);
    let ks2 = keys(put(m, k, v));
    if i < m.len() {
        assert(ks2 == ks);
        if q == k {
            assert(j == i);
        } else if j < m.len() {
            assert(j != i);
        }
    } else {
        assert(ks2 == ks.push(k));
        if q == k {
            lemma_position(ks2, q, m.len() as int);
        } else if j < m.len() {
            lemma_position(ks2, q, j as int);
        } else {
            lemma_position(ks2, q, m.len() as int + 1);
        }
    }
}

/// After entries are put in turn, a key holds the value of the last entry
/// with that key, and what it held before where no entry has it.
pub proof fn lemma_lookup_put_all(
    m: Seq<(Seq<char>, Value)>,
    es: Seq<(Seq<char>, Value)>,
    q: Seq<char>,
)
    ensures
        lookup(put_all(m, es), q) == match last_value(es, q) {
            Some(v) => Some(v),
            None => lookup(m, q),
        },
    decreases es.len(),
{
    if es.len() > 0 {
        lemma_lookup_put_all(m, es.drop_last(), q);
        lemma_lookup_put(put_all(m, es.drop_last()), es.last().0, es.last().1, q);
    }
}

/// In the fold of a sequence of sources, every key holds the value of the
/// last source that puts it; a key that no source puts is absent.
pub proof fn lemma_last_source_wins(sources: Seq<Seq<(Seq<char>, Value)>>, k: Seq<char>)
    ensures
        lookup(fold_sources(sources), k) == last_source_value(sources, k),
    decreases sources.len(),
{
    if sources.len() == 0 {
        reveal_with_fuel(position, 1);
    } else {
        lemma_last_source_wins(sources.drop_last(), k);
        lemma_lookup_put_all(fold_sources(sources.drop_last()), sources.last(), k);
    }
}

/// What the caller found on the file system for a token.
///
/// Only a token without `=` names a file; for a pair it is not consulted.
pub enum Found {
    /// No entry exists at the path.
    Missing,
    /// An entry exists, but reading its text failed.
    Unreadable(std::io::Error),
    /// The text of the file.
    Text(String),
}

impl View for Found {
    /// `None` for a missing file, the error for one that could not be read,
    /// and otherwise its text.
    type V = Option<Result<Seq<char>, std::io::Error>>;

    open spec fn view(&self) -> Option<Result<Seq<char>, std::io::Error>> {
        match self {
            Found::Missing => None,
            Found::Unreadable(e) => Some(Err(*e)),
            Found::Text(t) => Some(Ok(t@)),
        }
    }
}

/// Whether token `t`, with `f` found for it, is refused.
pub open spec fn token_fails(t: Seq<char>, f: Option<Result<Seq<char>, std::io::Error>>) -> bool {
    if count_char(t, '=') == 0 {
        match f {
            Some(Ok(text)) => content_failure(text) is Some,
            _ => true,
        }
    } else {
        !pair_ok(t)
    }
}

/// Whether `e` is the error that token `t`, with `f` found for it, gives.
pub open spec fn token_error(
    e: Error,
    t: Seq<char>,
    f: Option<Result<Seq<char>, std::io::Error>>,
) -> bool {
    if count_char(t, '=') == 0 {
        match f {
            None => (e matches Error::FileNotFound(p) && p@ == t),
            Some(Err(io)) => e == Error::File(crate::file::Error::Io(io)),
            Some(Ok(text)) => if content_failure(text) == Some(true) {
                (e matches Error::File(crate::file::Error::NonMapRoot(p)) && p@ == t)
            } else {
                (e matches Error::File(crate::file::Error::UnsupportedFormat(p)) && p@ == t)
            },
        }
    } else {
        pair_error(e, t)
    }
}

/// The entries that token `t`, with `f` found for it, puts, in order: a
/// file's inputs, or a pair's key with its value.
pub open spec fn token_entries(t: Seq<char>, f: Option<Result<Seq<char>, std::io::Error>>) -> Seq<
    (Seq<char>, Value),
> {
    if count_char(t, '=') == 0 {
        match f {
            Some(Ok(text)) => content_inputs(text),
            _ => Seq::empty(),
        }
    } else {
        seq![(key_text(t), pair_value(value_text(t)))]
    }
}

/// The view of a sequence of tokens with what was found for each.
pub open spec fn sources_view(v: Seq<(String, Found)>) -> Seq<
    (Seq<char>, Option<Result<Seq<char>, std::io::Error>>),
> {
    v.map_values(|e: (String, Found)| (e.0@, e.1@))
}

/// For each token, whether it is refused.
pub open spec fn failures(srcs: Seq<(Seq<char>, Option<Result<Seq<char>, std::io::Error>>)>) -> Seq<
    bool,
> {
    srcs.map_values(
        |e: (Seq<char>, Option<Result<Seq<char>, std::io::Error>>)| token_fails(e.0, e.1),
    )
}

/// The position of the first refused token, or the number of tokens.
pub open spec fn first_failure(srcs: Seq<(Seq<char>, Option<Result<Seq<char>, std::io::Error>>)>) -> nat {
    position(failures(srcs), true)
}

/// For each token, the entries it puts.
pub open spec fn source_entries(
    srcs: Seq<(Seq<char>, Option<Result<Seq<char>, std::io::Error>>)>,
) -> Seq<Seq<(Seq<char>, Value)>> {
    srcs.map_values(
        |e: (Seq<char>, Option<Result<Seq<char>, std::io::Error>>)| token_entries(e.0, e.1),
    )
}

/// The mapping that coalescing `srcs` gives where no token is refused: the
/// entries of each token put in turn over those before it.
pub open spec fn coalesced(srcs: Seq<(Seq<char>, Option<Result<Seq<char>, std::io::Error>>)>) -> Seq<
    (Seq<char>, Value),
> {
    fold_sources(source_entries(srcs))
}

/// What coalescing `srcs` gives: the error of the first refused token, with
/// nothing of the sources before it; or, where no token is refused, the
/// entries of each token put in turn.
pub open spec fn coalesce_post(
    srcs: Seq<(Seq<char>, Option<Result<Seq<char>, std::io::Error>>)>,
    r: Result<Inputs, Error>,
) -> bool {
    let i = first_failure(srcs);
    match r {
        Ok(m) => i == srcs.len() && m.wf() && m@ == coalesced(srcs),
        Err(e) => i < srcs.len() && token_error(e, srcs[i as int].0, srcs[i as int].1),
    }
}

/// Coalescing is repeatable: the same tokens, with the same found for each,
/// give the same mapping, values included, or fail at the same token for
/// the same reason.
pub proof fn lemma_coalesce_repeatable(
    srcs: Seq<(Seq<char>, Option<Result<Seq<char>, std::io::Error>>)>,
    r1: Result<Inputs, Error>,
    r2: Result<Inputs, Error>,
)
    requires
        coalesce_post(srcs, r1),
        coalesce_post(srcs, r2),
    ensures
        r1 is Ok <==> r2 is Ok,
        r1 matches Ok(m1) ==> (r2 matches Ok(m2) && m1@ == m2@),
        r1 matches Err(e1) ==> (r2 matches Err(e2) && token_error(
            e1,
            srcs[first_failure(srcs) as int].0,
            srcs[first_failure(srcs) as int].1,
        ) && token_error(e2, srcs[first_failure(srcs) as int].0, srcs[first_failure(srcs) as int].1)),
{
}

/// In a coalesced mapping, every key holds the value of the last token that
/// puts it, whether a file or a single pair.
pub proof fn lemma_coalesced_last_wins(
    srcs: Seq<(Seq<char>, Option<Result<Seq<char>, std::io::Error>>)>,
    k: Seq<char>,
)
    ensures
        lookup(coalesced(srcs), k) == last_source_value(source_entries(srcs), k),
{
    lemma_last_source_wins(source_entries(srcs), k);
}

proof fn lemma_last_source_value_concat(
    a: Seq<Seq<(Seq<char>, Value)>>,
    b: Seq<Seq<(Seq<char>, Value)>>,
    k: Seq<char>,
)
    ensures
        last_source_value(a + b, k) == match last_source_value(b, k) {
            Some(v) => Some(v),
            None => last_source_value(a, k),
        },
    decreases b.len(),
{
    if b.len() == 0 {
        assert(a + b =~= a);
    } else {
        assert((a + b).drop_last() =~= a + b.drop_last());
        assert((a + b).last() == b.last());
        lemma_last_source_value_concat(a, b.drop_last(), k);
    }
}

/// Coalescing two token lists one after the other gives the union of what
/// each gives alone: a key holds the second list's value where the second
/// list puts it, and the first list's value otherwise.
pub proof fn lemma_coalesce_concat(
    first: Seq<(Seq<char>, Option<Result<Seq<char>, std::io::Error>>)>,
    second: Seq<(Seq<char>, Option<Result<Seq<char>, std::io::Error>>)>,
    k: Seq<char>,
)
    ensures
        lookup(coalesced(first + second), k) == match lookup(coalesced(second), k) {
            Some(v) => Some(v),
            None => lookup(coalesced(first), k),
        },
{
    assert(source_entries(first + second) =~= source_entries(first) + source_entries(second));
    lemma_coalesced_last_wins(first + second, k);
    lemma_coalesced_last_wins(first, k);
    lemma_coalesced_last_wins(second, k);
    lemma_last_source_value_concat(source_entries(first), source_entries(second), k);
}

/// A set of inputs compiled on top of one another.
#[derive(Debug)]
pub struct Inputs {
    index: IndexMap<String, usize>,
    keys: Vec<String>,
    values: Vec<Value>,
}

impl View for Inputs {
    type V = Seq<(Seq<char>, Value)>;

    closed spec fn view(&self) -> Seq<(Seq<char>, Value)> {
        Seq::new(self.values@.len(), |i: int| (self.keys@[i]@, self.values@[i]))
    }
}

impl Inputs {
    /// The inner maps agree: each key sits at its own position, once.
    pub closed spec fn wf(&self) -> bool {
        let es = index_entries(self.index);
        &&& es.len() == self.values@.len()
        &&& self.keys@.len() == self.values@.len()
        &&& forall|i: int| 0 <= i < es.len() ==> es[i].1 == i && es[i].0 == self.keys@[i]@
        &&& forall|i: int, j: int|
            0 <= i < es.len() && 0 <= j < es.len() && i != j ==> es[i].0 != es[j].0
    }

    /// An empty set of inputs.
    pub fn new() -> (r: Inputs)
        ensures
            r.wf(),
            r@ == Seq::<(Seq<char>, Value)>::empty(),
    {
        let r = Inputs { index: index_new(), keys: Vec::new(), values: Vec::new() };
        assert(r@ =~= Seq::<(Seq<char>, Value)>::empty());
        r
    }

    /// The number of inputs.
    pub fn len(&self) -> (r: usize)
        requires
            self.wf(),
        ensures
            r == self@.len(),
    {
        self.values.len()
    }

    /// Whether there are no inputs.
    pub fn is_empty(&self) -> (r: bool)
        requires
            self.wf(),
        ensures
            r == (self@.len() == 0),
    {
        self.values.len() == 0
    }

    /// The position of `key`, where it is a key.
    fn find(&self, key: &str) -> (r: Option<usize>)
        requires
            self.wf(),
        ensures
            r matches Some(i) ==> i < self@.len() && i == position(keys(self@), key@),
            r is None ==> position(keys(self@), key@) == self@.len(),
    {
        let found = index_of(&self.index, key);
        proof {
            let es = index_entries(self.index);
            assert(keys(self@) =~= es.map_values(|e: (Seq<char>, usize)| e.0));
            if let Some(i) = found {
                lemma_position(keys(self@), key@, i as int);
            } else {
                lemma_position(keys(self@), key@, self@.len() as int);
            }
        }
        found
    }

    /// The value of `key`, where it is a key.
    pub fn get(&self, key: &str) -> (r: Option<&Value>)
        requires
            self.wf(),
        ensures
            match lookup(self@, key@) {
                Some(v) => r matches Some(x) && *x == v,
                None => r is None,
            },
    {
        match self.find(key) {
            Some(i) => Some(&self.values[i]),
            None => None,
        }
    }

    /// The key at position `i`.
    pub fn key_at(&self, i: usize) -> (r: &String)
        requires
            self.wf(),
            i < self@.len(),
        ensures
            r@ == self@[i as int].0,
    {
        &self.keys[i]
    }

    /// Sets `key` to `value`: in place where `key` is a key, last otherwise.
    pub fn insert(&mut self, key: String, value: Value)
        requires
            old(self).wf(),
        ensures
            final(self).wf(),
            final(self)@ == put(old(self)@, key@, value),
    {
        match self.find(key.as_str()) {
            Some(i) => {
                self.values.set(i, value);
                assert(self@ =~= put(old(self)@, key@, value)) by {
                    lemma_position_facts(keys(old(self)@), key@);
                }
            },
            None => {
                proof {
                    lemma_position_facts(keys(old(self)@), key@);
                    assert forall|i: int| 0 <= i < index_entries(self.index).len() implies index_entries(
                        self.index,
                    )[i].0 != key@ by {
                        assert(keys(old(self)@)[i] == index_entries(self.index)[i].0);
                    }
                }
                let n = self.values.len();
                index_insert(&mut self.index, key.clone(), n);
                self.keys.push(key);
                self.values.push(value);
                assert(self@ =~= put(old(self)@, key@, value));
            },
        }
    }

    /// Puts every member in turn.
    pub fn extend(&mut self, members: Vec<(String, Value)>)
        requires
            old(self).wf(),
        ensures
            final(self).wf(),
            final(self)@ == put_all(old(self)@, entries_view(members@)),
    {
        let ghost start = self@;
        let ghost ms = members@;
        let ghost all = entries_view(members@);
        let mut rest = members;
        let n = rest.len();
        let mut done: usize = 0;
        while rest.len() > 0
            invariant
                self.wf(),
                n == ms.len(),
                done + rest@.len() == ms.len(),
                all == entries_view(ms),
                rest@ == ms.subrange(done as int, ms.len() as int),
                self@ == put_all(start, all.subrange(0, done as int)),
            decreases rest@.len(),
        {
            let (k, v) = rest.remove(0);
            proof {
                assert(all.subrange(0, done + 1).drop_last() =~= all.subrange(0, done as int));
                assert(ms[done as int] == (k, v));
                assert(all.subrange(0, done + 1).last() == (k@, v));
            }
            self.insert(k, v);
            done = done + 1;
            assert(rest@ =~= ms.subrange(done as int, ms.len() as int));
        }
        assert(all.subrange(0, done as int) =~= all);
    }

    /// The inputs that the members give, put in turn into an empty set.
    pub fn from_members(members: Vec<(String, Value)>) -> (r: Inputs)
        ensures
            r.wf(),
            r@ == put_all(Seq::empty(), entries_view(members@)),
    {
        let mut r = Inputs::new();
        r.extend(members);
        r
    }

    /// Consumes the inputs and returns their entries, in order.
    pub fn into_inner(self) -> (r: Vec<(String, Value)>)
        requires
            self.wf(),
        ensures
            entries_view(r@) == self@,
    {
        let Inputs { index: _, keys, values } = self;
        let ghost view = Seq::new(values@.len(), |i: int| (keys@[i]@, values@[i]));
        let ghost ks = keys@;
        let ghost vs = values@;
        let mut keys = keys;
        let mut values = values;
        let mut r: Vec<(String, Value)> = Vec::new();
        while values.len() > 0
            invariant
                ks.len() == vs.len(),
                view.len() == vs.len(),
                forall|i: int| 0 <= i < view.len() ==> view[i] == (ks[i]@, vs[i]),
                r@.len() + values@.len() == view.len(),
                keys@ == ks.subrange(r@.len() as int, ks.len() as int),
                values@ == vs.subrange(r@.len() as int, vs.len() as int),
                entries_view(r@) == view.subrange(0, r@.len() as int),
            decreases values@.len(),
        {
            let k = keys.remove(0);
            let v = values.remove(0);
            r.push((k, v));
            assert(entries_view(r@) =~= view.subrange(0, r@.len() as int));
            assert(keys@ =~= ks.subrange(r@.len() as int, ks.len() as int));
            assert(values@ =~= vs.subrange(r@.len() as int, vs.len() as int));
        }
        assert(view.subrange(0, r@.len() as int) =~= view);
        r
    }

    /// Folds one token in: a pair is put; a file's inputs are put in turn.
    /// `found` is what the caller found at the token where it names a file.
    /// On an error the inputs are left as they were.
    pub fn add_input(&mut self, token: &str, found: Found) -> (r: Result<(), Error>)
        requires
            old(self).wf(),
        ensures
            final(self).wf(),
            r is Ok <==> !token_fails(token@, found@),
            r matches Err(e) ==> token_error(e, token@, found@) && final(self)@ == old(self)@,
            r is Ok ==> final(self)@ == put_all(old(self)@, token_entries(token@, found@)),
    {
        let ghost fv = found@;
        let exists = match &found {
            Found::Missing => false,
            _ => true,
        };
        let input = match Input::classify(token, exists) {
            Ok(i) => i,
            Err(e) => return Err(e),
        };
        match input {
            Input::Pair { key, value } => {
                let ghost es = seq![(key@, value)];
                self.insert(key, value);
                proof {
                    reveal_with_fuel(put_all, 2);
                    assert(es.drop_last() =~= Seq::<(Seq<char>, Value)>::empty());
                    assert(es =~= token_entries(token@, fv));
                }
                Ok(())
            },
            Input::File(path) => match found {
                Found::Missing => Err(Error::FileNotFound(path)),
                Found::Unreadable(e) => Err(Error::File(crate::file::Error::Io(e))),
                Found::Text(text) => match InputFile::from_content(path.as_str(), text.as_str()) {
                    Ok(file) => {
                        let members = file.into_inner();
                        self.extend(members);
                        Ok(())
                    },
                    Err(e) => Err(Error::File(e)),
                },
            },
        }
    }

    /// Coalesces tokens, in order, into one set of inputs. Each token comes
    /// with what the caller found at it on the file system. The first refused
    /// token ends the work with its error.
    pub fn coalesce(sources: Vec<(String, Found)>) -> (r: Result<Inputs, Error>)
        ensures
            coalesce_post(sources_view(sources@), r),
    {
        let ghost sv = sources_view(sources@);
        let ghost fails = failures(sv);
        let ghost orig = sources@;
        let mut rest = sources;
        let n = rest.len();
        let mut done: usize = 0;
        let mut inputs = Inputs::new();
        while rest.len() > 0
            invariant
                inputs.wf(),
                n == orig.len(),
                orig == sources@,
                sv == sources_view(orig),
                fails == failures(sv),
                done + rest@.len() == n,
                rest@ == orig.subrange(done as int, n as int),
                forall|j: int| 0 <= j < done ==> !fails[j],
                inputs@ == coalesced(sv.subrange(0, done as int)),
            decreases rest@.len(),
        {
            let (token, found) = rest.remove(0);
            assert(sv[done as int] == (token@, found@));
            match inputs.add_input(token.as_str(), found) {
                Ok(()) => {
                    proof {
                        let pre = sv.subrange(0, done as int);
                        let post = sv.subrange(0, done + 1);
                        assert(source_entries(post).drop_last() =~= source_entries(pre));
                        assert(source_entries(post).last() == token_entries(sv[done as int].0, sv[done as int].1));
                    }
                    done = done + 1;
                    assert(rest@ =~= orig.subrange(done as int, n as int));
                },
                Err(e) => {
                    proof {
                        assert(fails[done as int] == token_fails(sv[done as int].0, sv[done as int].1));
                        lemma_position(fails, true, done as int);
                    }
                    return Err(e);
                },
            }
        }
        proof {
            lemma_position(fails, true, n as int);
            assert(sv.subrange(0, n as int) =~= sv);
        }
        Ok(inputs)
    }
}

impl Default for Inputs {
    /// An empty set of inputs.
    fn default() -> (r: Inputs)
        ensures
            r.wf(),
            r@ == Seq::<(Seq<char>, Value)>::empty(),
    {
        Inputs::new()
    }
}

impl Clone for Inputs {
    /// A copy of the inputs, with the same entries in the same order.
    fn clone(&self) -> (r: Inputs)
        ensures
            r.wf(),
            self.wf() ==> r@ == self@,
    {
        let mut r = Inputs::new();
        let n = if self.keys.len() < self.values.len() {
            self.keys.len()
        } else {
            self.values.len()
        };
        let mut i: usize = 0;
        while i < n
            invariant
                r.wf(),
                n <= self.keys@.len(),
                n <= self.values@.len(),
                i <= n,
                self.wf() ==> r@ == self@.subrange(0, i as int),
            decreases n - i,
        {
            let k = self.keys[i].clone();
            let v = self.values[i].clone();
            proof {
                if self.wf() {
                    let es = index_entries(self.index);
                    assert forall|j: int| 0 <= j < i implies keys(r@)[j] != k@ by {
                        assert(keys(r@)[j] == self@[j].0);
                        assert(es[j].0 != es[i as int].0);
                    }
                    lemma_position(keys(r@), k@, i as int);
                }
            }
            r.insert(k, v);
            proof {
                if self.wf() {
                    assert(r@ =~= self@.subrange(0, i + 1));
                }
            }
            i = i + 1;
        }
        proof {
            if self.wf() {
                assert(self@.subrange(0, n as int) =~= self@);
            }
        }
        r
    }
}

} // verus!
