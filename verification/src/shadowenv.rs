//! The shadow context: mutable state threaded through one activation.
//!
//! It owns the process's environment snapshot (a read-only baseline), the
//! undo ledger parsed from the previous state, the target hash, and the
//! accumulating export/unset operations and feature labels. Construction
//! schedules every previously recorded variable for restoration; the
//! configuration runtime then overwrites whatever it sets anew, recording
//! each variable's pre-shadow original in a fresh ledger before clobbering
//! it.

use vstd::prelude::*;

use crate::hash::spec_hash_hex;
use crate::hash::hash_to_hex;
use crate::strutil::push_char;
use crate::undo::{Data, Entry, LedgerView, opt_view, unique_names, spec_ledger_json};

verus! {

/// The view of an environment snapshot.
pub type EnvView = Seq<(Seq<char>, Seq<char>)>;

pub open spec fn env_view(s: Seq<(String, String)>) -> EnvView {
    Seq::new(s.len(), |i: int| (s[i].0@, s[i].1@))
}

pub open spec fn exports_view(s: Seq<(String, Option<String>)>) -> LedgerView {
    Seq::new(s.len(), |i: int| (s[i].0@, opt_view(s[i].1)))
}

pub open spec fn strs_view(s: Seq<String>) -> Seq<Seq<char>> {
    Seq::new(s.len(), |i: int| s[i]@)
}

/// The first value recorded under `n`, if any.
pub open spec fn spec_lookup<V>(s: Seq<(Seq<char>, V)>, n: Seq<char>) -> Option<V>
    decreases s.len(),
{
    if s.len() == 0 {
        None
    } else if s[0].0 == n {
        Some(s[0].1)
    } else {
        spec_lookup(s.drop_first(), n)
    }
}

pub open spec fn spec_contains_name<V>(s: Seq<(Seq<char>, V)>, n: Seq<char>) -> bool {
    spec_lookup(s, n) is Some
}

/// Updates the first binding of `n`, or appends one.
pub open spec fn spec_set_assoc<V>(s: Seq<(Seq<char>, V)>, n: Seq<char>, v: V) -> Seq<
    (Seq<char>, V),
>
    decreases s.len(),
{
    if s.len() == 0 {
        seq![(n, v)]
    } else if s[0].0 == n {
        seq![(n, v)] + s.drop_first()
    } else {
        seq![s[0]] + spec_set_assoc(s.drop_first(), n, v)
    }
}

/// What a variable held before shadowing ever touched it: the previous
/// ledger's record when there is one, else its value in the current
/// snapshot (`None`: unset).
pub open spec fn spec_original_of(prev: LedgerView, env: EnvView, n: Seq<char>) -> Option<
    Seq<char>,
> {
    match spec_lookup(prev, n) {
        Some(orig) => orig,
        None => spec_lookup(env, n),
    }
}

/// The mathematical state of a shadow context.
#[verifier::ext_equal]
pub struct ShadowenvView {
    pub env: EnvView,
    pub prev: LedgerView,
    pub data: LedgerView,
    pub target_hash: u64,
    pub exports: LedgerView,
    pub features: Seq<Seq<char>>,
}

/// The opaque state string: the target hash in canonical hexadecimal, a
/// colon, and the ledger's canonical JSON document.
pub open spec fn spec_state_string(h: u64, ledger: LedgerView) -> Seq<char> {
    spec_hash_hex(h) + seq![':'] + spec_ledger_json(ledger)
}

/// The shadow context.
pub struct Shadowenv {
    env: Vec<(String, String)>,
    prev: Data,
    data: Data,
    target_hash: u64,
    exports: Vec<(String, Option<String>)>,
    features: Vec<String>,
}

impl View for Shadowenv {
    type V = ShadowenvView;

    closed spec fn view(&self) -> ShadowenvView {
        ShadowenvView {
            env: env_view(self.env@),
            prev: self.prev@,
            data: self.data@,
            target_hash: self.target_hash,
            exports: exports_view(self.exports@),
            features: strs_view(self.features@),
        }
    }
}

proof fn lemma_set_assoc_update<V>(s: Seq<(Seq<char>, V)>, n: Seq<char>, v: V, i: int)
    requires
        0 <= i < s.len(),
        s[i].0 == n,
        forall|j: int| 0 <= j < i ==> s[j].0 != n,
    ensures
        spec_set_assoc(s, n, v) == s.update(i, (n, v)),
    decreases i,
{
    if i == 0 {
        assert(spec_set_assoc(s, n, v) =~= s.update(0, (n, v)));
    } else {
        assert(s.drop_first()[i - 1].0 == n);
        lemma_set_assoc_update(s.drop_first(), n, v, i - 1);
        assert(seq![s[0]] + s.drop_first().update(i - 1, (n, v)) =~= s.update(i, (n, v)));
    }
}

proof fn lemma_set_assoc_append<V>(s: Seq<(Seq<char>, V)>, n: Seq<char>, v: V)
    requires
        forall|j: int| 0 <= j < s.len() ==> s[j].0 != n,
    ensures
        spec_set_assoc(s, n, v) == s.push((n, v)),
    decreases s.len(),
{
    if s.len() == 0 {
        assert(spec_set_assoc(s, n, v) =~= s.push((n, v)));
    } else {
        lemma_set_assoc_append(s.drop_first(), n, v);
        assert(seq![s[0]] + s.drop_first().push((n, v)) =~= s.push((n, v)));
    }
}

/// The first ledger record under `name`, cloned.
fn ledger_lookup(d: &Data, name: &String) -> (r: Option<Option<String>>)
    ensures
        match r {
            Some(orig) => spec_lookup(d@, name@) == Some(opt_view(orig)),
            None => spec_lookup(d@, name@) is None,
        },
{
    let n = d.entries.len();
    proof {
        assert(d@.skip(0) =~= d@);
    }
    let mut i: usize = 0;
    while i < n
        invariant
            i <= n,
            n == d.entries@.len(),
            spec_lookup(d@, name@) == spec_lookup(d@.skip(i as int), name@),
        decreases n - i,
    {
        proof {
            assert(d@.skip(i as int)[0] == d@[i as int]);
            assert(d@.skip(i as int).drop_first() =~= d@.skip(i as int + 1));
        }
        if d.entries[i].name == *name {
            let orig = match &d.entries[i].original {
                Some(v) => Some(v.clone()),
                None => None,
            };
            return Some(orig);
        }
        i = i + 1;
    }
    proof {
        assert(d@.skip(n as int) =~= Seq::<(Seq<char>, Option<Seq<char>>)>::empty());
    }
    None
}

/// The snapshot value of `name`, cloned.
fn env_lookup(env: &Vec<(String, String)>, name: &String) -> (r: Option<String>)
    ensures
        opt_view(r) == spec_lookup(env_view(env@), name@),
{
    let n = env.len();
    proof {
        assert(env_view(env@).skip(0) =~= env_view(env@));
    }
    let mut i: usize = 0;
    while i < n
        invariant
            i <= n,
            n == env@.len(),
            spec_lookup(env_view(env@), name@) == spec_lookup(
                env_view(env@).skip(i as int),
                name@,
            ),
        decreases n - i,
    {
        proof {
            assert(env_view(env@).skip(i as int)[0] == env_view(env@)[i as int]);
            assert(env_view(env@).skip(i as int).drop_first() =~= env_view(env@).skip(i as int + 1));
        }
        if env[i].0 == *name {
            return Some(env[i].1.clone());
        }
        i = i + 1;
    }
    proof {
        assert(env_view(env@).skip(n as int) =~= Seq::<(Seq<char>, Seq<char>)>::empty());
    }
    None
}

impl Shadowenv {
    /// Well-formed: the export set and the new ledger are mappings.
    pub open spec fn wf(&self) -> bool {
        unique_names(self@.exports) && unique_names(self@.data)
    }

    /// Builds the context for one activation: the fresh ledger is empty and
    /// every variable the previous ledger recorded is scheduled to be put
    /// back to its original value.
    pub fn new(env: Vec<(String, String)>, data: Data, target_hash: u64) -> (se: Shadowenv)
        requires
            data.wf(),
        ensures
            se@.env == env_view(env@),
            se@.prev == data@,
            se@.data == Seq::<(Seq<char>, Option<Seq<char>>)>::empty(),
            se@.target_hash == target_hash,
            se@.exports == data@,
            se@.features == Seq::<Seq<char>>::empty(),
            se.wf(),
    {
        let n = data.entries.len();
        let mut exports: Vec<(String, Option<String>)> = Vec::new();
        let mut i: usize = 0;
        while i < n
            invariant
                i <= n,
                n == data.entries@.len(),
                exports_view(exports@) =~= data@.subrange(0, i as int),
            decreases n - i,
        {
            let name = data.entries[i].name.clone();
            let orig = match &data.entries[i].original {
                Some(v) => Some(v.clone()),
                None => None,
            };
            proof {
                assert(name@ == data@[i as int].0);
                assert(opt_view(orig) == data@[i as int].1);
            }
            let ghost before = exports_view(exports@);
            exports.push((name, orig));
            proof {
                assert(exports_view(exports@) =~= before.push(data@[i as int]));
                assert(before.push(data@[i as int]) =~= data@.subrange(0, i as int + 1));
            }
            i = i + 1;
        }
        proof {
            assert(data@.subrange(0, n as int) =~= data@);
        }
        let se = Shadowenv {
            env,
            prev: data,
            data: Data::empty(),
            target_hash,
            exports,
            features: Vec::new(),
        };
        proof {
            assert(se@.exports =~= se.prev@);
            assert(se@.data =~= Seq::<(Seq<char>, Option<Seq<char>>)>::empty());
            assert(se@.features =~= Seq::<Seq<char>>::empty());
        }
        se
    }

    /// Schedules `name` to be exported with `value` (`None`: unset), after
    /// recording in the fresh ledger — once — what the variable held before
    /// shadowing ever touched it.
    #[verifier::loop_isolation(false)]
    pub fn set_variable(&mut self, name: String, value: Option<String>)
        requires
            old(self).wf(),
        ensures
            final(self).wf(),
            final(self)@.exports == spec_set_assoc(old(self)@.exports, name@, opt_view(value)),
            final(self)@.data == (if spec_contains_name(old(self)@.data, name@) {
                old(self)@.data
            } else {
                old(self)@.data.push(
                    (name@, spec_original_of(old(self)@.prev, old(self)@.env, name@)),
                )
            }),
            final(self)@.env == old(self)@.env,
            final(self)@.prev == old(self)@.prev,
            final(self)@.target_hash == old(self)@.target_hash,
            final(self)@.features == old(self)@.features,
    {
        let already = match ledger_lookup(&self.data, &name) {
            Some(_) => true,
            None => false,
        };
        if !already {
            let orig = match ledger_lookup(&self.prev, &name) {
                Some(o) => o,
                None => env_lookup(&self.env, &name),
            };
            let ghost old_data = self.data@;
            self.data.entries.push(Entry { name: name.clone(), original: orig });
            proof {
                assert(self.data@ =~= old_data.push(
                    (name@, spec_original_of(self@.prev, self@.env, name@)),
                ));
                assert forall|a: int, b: int|
                    0 <= a < b < self.data@.len() implies self.data@[a].0 != self.data@[b].0 by {
                    if b == self.data@.len() - 1 {
                        lemma_lookup_absent(old_data, name@, a);
                    }
                }
            }
        }
        let ghost mid = *self;
        let n = self.exports.len();
        let mut i: usize = 0;
        while i < n
            invariant
                i <= n,
                n == self.exports@.len(),
                self.env@ == mid.env@,
                self.prev@ == mid.prev@,
                self.data@ == mid.data@,
                self.target_hash == mid.target_hash,
                self.exports@ == mid.exports@,
                self.features@ == mid.features@,
                forall|j: int| 0 <= j < i ==> exports_view(self.exports@)[j].0 != name@,
            decreases n - i,
        {
            if self.exports[i].0 == name {
                let ghost before = exports_view(self.exports@);
                proof {
                    assert(before[i as int].0 == name@);
                    assert(unique_names(before));
                    lemma_set_assoc_update(before, name@, opt_view(value), i as int);
                }
                self.exports.set(i, (name, value));
                proof {
                    assert(exports_view(self.exports@) =~= before.update(
                        i as int,
                        (name@, opt_view(value)),
                    ));
                    assert forall|a: int, b: int|
                        0 <= a < b < exports_view(self.exports@).len() implies exports_view(
                        self.exports@,
                    )[a].0 != exports_view(self.exports@)[b].0 by {
                        assert(exports_view(self.exports@)[a].0 == before[a].0);
                        assert(exports_view(self.exports@)[b].0 == before[b].0);
                    }
                }
                return ;
            }
            i = i + 1;
        }
        let ghost before = exports_view(self.exports@);
        proof {
            assert(unique_names(before));
            lemma_set_assoc_append(before, name@, opt_view(value));
        }
        self.exports.push((name, value));
        proof {
            assert(exports_view(self.exports@) =~= before.push((name@, opt_view(value))));
            assert forall|a: int, b: int|
                0 <= a < b < exports_view(self.exports@).len() implies exports_view(
                self.exports@,
            )[a].0 != exports_view(self.exports@)[b].0 by {
                if b < exports_view(self.exports@).len() - 1 {
                    assert(exports_view(self.exports@)[a].0 == before[a].0);
                    assert(exports_view(self.exports@)[b].0 == before[b].0);
                } else {
                    assert(exports_view(self.exports@)[b].0 == name@);
                    assert(exports_view(self.exports@)[a].0 == before[a].0);
                }
            }
        }
    }

    /// Adds a human-readable feature label, once.
    #[verifier::loop_isolation(false)]
    pub fn add_feature(&mut self, name: String)
        requires
            old(self).wf(),
        ensures
            final(self).wf(),
            final(self)@.features == (if old(self)@.features.contains(name@) {
                old(self)@.features
            } else {
                old(self)@.features.push(name@)
            }),
            final(self)@.env == old(self)@.env,
            final(self)@.prev == old(self)@.prev,
            final(self)@.data == old(self)@.data,
            final(self)@.target_hash == old(self)@.target_hash,
            final(self)@.exports == old(self)@.exports,
    {
        let n = self.features.len();
        let mut i: usize = 0;
        while i < n
            invariant
                i <= n,
                n == self.features@.len(),
                forall|j: int| 0 <= j < i ==> strs_view(self.features@)[j] != name@,
            decreases n - i,
        {
            if self.features[i] == name {
                proof {
                    assert(strs_view(self.features@)[i as int] == name@);
                    assert(self@.features.contains(name@));
                }
                return ;
            }
            i = i + 1;
        }
        proof {
            assert forall|j: int| 0 <= j < self@.features.len() implies self@.features[j] != name@
                by {}
            assert(!self@.features.contains(name@));
        }
        let ghost before = strs_view(self.features@);
        self.features.push(name);
        proof {
            assert(strs_view(self.features@) =~= before.push(name@));
        }
    }

    /// The accumulated export/unset operations, in order.
    pub fn exports(&self) -> (r: &Vec<(String, Option<String>)>)
        ensures
            exports_view(r@) == self@.exports,
    {
        &self.exports
    }

    /// The accumulated feature labels, surrendered.
    pub fn into_features(self) -> (r: Vec<String>)
        ensures
            strs_view(r@) == self@.features,
    {
        self.features
    }

    /// The accumulated feature labels, in order.
    pub fn features(&self) -> (r: &Vec<String>)
        ensures
            strs_view(r@) == self@.features,
    {
        &self.features
    }

    /// The new opaque state string: target hash, colon, serialized ledger.
    pub fn format_shadowenv_data(&self) -> (r: String)
        ensures
            r@ == spec_state_string(self@.target_hash, self@.data),
    {
        let mut r = hash_to_hex(self.target_hash);
        push_char(&mut r, ':');
        let json = self.data.to_json();
        r.append(json.as_str());
        proof {
            assert(r@ =~= spec_state_string(self@.target_hash, self@.data));
        }
        r
    }
}

/// In a sequence where `n` is not bound, no position binds `n`.
proof fn lemma_lookup_absent<V>(s: Seq<(Seq<char>, V)>, n: Seq<char>, i: int)
    requires
        spec_lookup(s, n) is None,
        0 <= i < s.len(),
    ensures
        s[i].0 != n,
    decreases i,
{
    if i > 0 {
        lemma_lookup_absent(s.drop_first(), n, i - 1);
    }
}

} // verus!
