//! The activation engine: parse the previous state, decide whether the
//! shadow environment must be recomputed, replay the undo ledger, apply the
//! configuration program's operations, and render the delta.
//!
//! The caller (the process boundary) supplies plain values: the opaque
//! previous-state string the shell replayed, the discovered target source
//! with its precomputed content hash, a snapshot of the process environment,
//! and — when a target exists and a reactivation is needed — the operations
//! the external configuration runtime produced, or its opaque failure.

use vstd::prelude::*;

use crate::hash::{
    Source, spec_hash_hex, spec_parse_hash_hex, parse_hash_hex, lemma_hash_hex_round_trip,
    lemma_hex_digits_len, lemma_hex_digits_hex, is_hex_char, hex_val_of,
};
use crate::output::{
    spec_posix_output, spec_fish_output, spec_porcelain_output, encode_posix, encode_fish,
    encode_porcelain,
};
use crate::shadowenv::{
    Shadowenv, ShadowenvView, env_view, strs_view, spec_state_string,
    spec_set_assoc, spec_contains_name, spec_original_of,
};
use crate::undo::{
    Data, LedgerView, opt_view, unique_names, spec_parse_ledger, spec_ledger_json,
    lemma_ledger_round_trip,
};

verus! {

/// Which wire format the caller asked for.
#[derive(Clone, Copy, PartialEq, Eq, Structural, Debug)]
pub enum VariableOutputMode {
    FishMode,
    PorcelainMode,
    PosixMode,
}

/// What can go wrong during one activation attempt.
#[derive(Clone, Copy, PartialEq, Eq, Structural, Debug)]
pub enum HookError {
    /// The previous-state string is malformed: its hash is not canonical,
    /// or its ledger document does not parse.
    ParseError,
    /// Discovering or hashing the target source failed. Produced at the
    /// process boundary, which does the reading; never by this engine.
    IoFailure,
    /// The external configuration runtime reported a failure it has already
    /// explained on its own diagnostic channel.
    ConfigurationEvaluationFailure,
}

/// One operation produced by the configuration runtime.
pub enum ShadowOp {
    /// Export `name` with a value, or schedule it for unsetting.
    SetVariable { name: String, value: Option<String> },
    /// Contribute a human-readable feature label.
    AddFeature { name: String },
}

/// What one invocation hands back to the process boundary.
pub struct RunOutput {
    /// The rendered delta, ready for standard output.
    pub output: String,
    /// Whether a configuration program was executed.
    pub activated: bool,
    /// The feature labels, for the human-readable notice.
    pub features: Vec<String>,
}

// ---------------------------------------------------------------------------
// Splitting the opaque state string.
// ---------------------------------------------------------------------------
/// The position of the first colon.
pub open spec fn find_colon(s: Seq<char>) -> Option<int>
    decreases s.len(),
{
    if s.len() == 0 {
        None
    } else if s[0] == ':' {
        Some(0)
    } else {
        match find_colon(s.drop_first()) {
            Some(i) => Some(i + 1),
            None => None,
        }
    }
}

/// Everything before the first colon (the whole string when there is none).
pub open spec fn spec_hash_field(s: Seq<char>) -> Seq<char> {
    match find_colon(s) {
        Some(i) => s.take(i),
        None => s,
    }
}

/// Everything after the first colon; an empty-object document when there is
/// no colon.
pub open spec fn spec_ledger_field(s: Seq<char>) -> Seq<char> {
    match find_colon(s) {
        Some(i) => s.skip(i + 1),
        None => seq!['{', '}'],
    }
}

/// The previous hash encoded in the state string: the outer `None` is a
/// parse failure; the inner `None` is absence — an empty hash field or the
/// all-zero sentinel.
pub open spec fn spec_parse_prev_hash(s: Seq<char>) -> Option<Option<u64>> {
    let hf = spec_hash_field(s);
    if hf.len() == 0 {
        Some(None)
    } else {
        match spec_parse_hash_hex(hf) {
            Some(h) => if h == 0 {
                Some(None)
            } else {
                Some(Some(h))
            },
            None => None,
        }
    }
}

// ---------------------------------------------------------------------------
// Change detection.
// ---------------------------------------------------------------------------
/// The target source's hash, when a source was discovered.
pub open spec fn spec_target_hash(target: Option<Source>) -> Option<u64> {
    match target {
        Some(t) => Some(t.hash),
        None => None,
    }
}

/// The hash recorded in the new state: the target's, or zero when
/// shadowing is being removed.
pub open spec fn spec_new_target_hash(target: Option<Source>) -> u64 {
    match target {
        Some(t) => t.hash,
        None => 0,
    }
}

/// Whether a (re)activation must occur: never when nothing was and nothing
/// is shadowed, never when the configuration is unchanged, always
/// otherwise.
pub open spec fn spec_needs_activation(prev: Option<u64>, target: Option<u64>) -> bool {
    match (prev, target) {
        (Option::None, Option::None) => false,
        (Option::Some(p), Option::Some(t)) => p != t,
        _ => true,
    }
}

/// The context right after construction: the fresh ledger is empty and the
/// previous ledger is replayed into the export set.
pub open spec fn spec_fresh_view(env: Seq<(Seq<char>, Seq<char>)>, led: LedgerView, th: u64)
    -> ShadowenvView {
    ShadowenvView {
        env: env,
        prev: led,
        data: Seq::empty(),
        target_hash: th,
        exports: led,
        features: Seq::empty(),
    }
}

// ---------------------------------------------------------------------------
// The configuration program's effect.
// ---------------------------------------------------------------------------
/// One operation's effect on the context.
pub open spec fn spec_apply_op(se: ShadowenvView, op: ShadowOp) -> ShadowenvView {
    match op {
        ShadowOp::SetVariable { name, value } => ShadowenvView {
            exports: spec_set_assoc(se.exports, name@, opt_view(value)),
            data: if spec_contains_name(se.data, name@) {
                se.data
            } else {
                se.data.push((name@, spec_original_of(se.prev, se.env, name@)))
            },
            ..se
        },
        ShadowOp::AddFeature { name } => ShadowenvView {
            features: if se.features.contains(name@) {
                se.features
            } else {
                se.features.push(name@)
            },
            ..se
        },
    }
}

/// The operations' combined effect, applied in order.
pub open spec fn spec_apply_ops(se: ShadowenvView, ops: Seq<ShadowOp>) -> ShadowenvView
    decreases ops.len(),
{
    if ops.len() == 0 {
        se
    } else {
        spec_apply_ops(spec_apply_op(se, ops[0]), ops.drop_first())
    }
}

proof fn lemma_apply_ops_push(se: ShadowenvView, ops: Seq<ShadowOp>, op: ShadowOp)
    ensures
        spec_apply_ops(se, ops.push(op)) == spec_apply_op(spec_apply_ops(se, ops), op),
    decreases ops.len(),
{
    if ops.len() == 0 {
        assert(ops.push(op)[0] == op);
        assert(ops.push(op).drop_first() =~= Seq::<ShadowOp>::empty());
        assert(spec_apply_ops(se, ops.push(op)) == spec_apply_ops(
            spec_apply_op(se, op),
            Seq::<ShadowOp>::empty(),
        ));
        assert(spec_apply_ops(spec_apply_op(se, op), Seq::<ShadowOp>::empty()) == spec_apply_op(
            se,
            op,
        ));
    } else {
        assert(ops.push(op)[0] == ops[0]);
        assert(ops.push(op).drop_first() =~= ops.drop_first().push(op));
        assert(spec_apply_ops(se, ops.push(op)) == spec_apply_ops(
            spec_apply_op(se, ops[0]),
            ops.drop_first().push(op),
        ));
        lemma_apply_ops_push(spec_apply_op(se, ops[0]), ops.drop_first(), op);
        assert(spec_apply_ops(se, ops) == spec_apply_ops(
            spec_apply_op(se, ops[0]),
            ops.drop_first(),
        ));
    }
}

proof fn lemma_apply_ops_frame(se: ShadowenvView, ops: Seq<ShadowOp>)
    ensures
        spec_apply_ops(se, ops).target_hash == se.target_hash,
        spec_apply_ops(se, ops).env == se.env,
        spec_apply_ops(se, ops).prev == se.prev,
    decreases ops.len(),
{
    if ops.len() > 0 {
        lemma_apply_ops_frame(spec_apply_op(se, ops[0]), ops.drop_first());
    }
}

/// Applies the runtime's operations to the context, in order.
pub fn apply_ops(se: &mut Shadowenv, ops: &Vec<ShadowOp>)
    requires
        old(se).wf(),
    ensures
        final(se).wf(),
        final(se)@ == spec_apply_ops(old(se)@, ops@),
{
    let n = ops.len();
    let mut i: usize = 0;
    proof {
        assert(ops@.subrange(0, 0) =~= Seq::<ShadowOp>::empty());
    }
    while i < n
        invariant
            i <= n,
            n == ops@.len(),
            se.wf(),
            se@ == spec_apply_ops(old(se)@, ops@.subrange(0, i as int)),
        decreases n - i,
    {
        let ghost pre = se@;
        match &ops[i] {
            ShadowOp::SetVariable { name, value } => {
                let v = match value {
                    Some(s) => Some(s.clone()),
                    None => None,
                };
                se.set_variable(name.clone(), v);
            },
            ShadowOp::AddFeature { name } => {
                se.add_feature(name.clone());
            },
        }
        proof {
            assert(se@ =~= spec_apply_op(pre, ops@[i as int]));
            assert(ops@.subrange(0, i as int).push(ops@[i as int]) =~= ops@.subrange(
                0,
                i as int + 1,
            ));
            lemma_apply_ops_push(old(se)@, ops@.subrange(0, i as int), ops@[i as int]);
        }
        i = i + 1;
    }
    proof {
        assert(ops@.subrange(0, n as int) =~= ops@);
    }
}

// ---------------------------------------------------------------------------
// The engine.
// ---------------------------------------------------------------------------
/// The output format chosen by the caller, applied to a state string and an
/// export set.
pub open spec fn spec_encode(mode: VariableOutputMode, state: Seq<char>, exports: LedgerView)
    -> Seq<char> {
    match mode {
        VariableOutputMode::PosixMode => spec_posix_output(state, exports),
        VariableOutputMode::FishMode => spec_fish_output(state, exports),
        VariableOutputMode::PorcelainMode => spec_porcelain_output(state, exports),
    }
}

proof fn lemma_find_colon_at(s: Seq<char>, i: int)
    requires
        0 <= i < s.len(),
        s[i] == ':',
        forall|k: int| 0 <= k < i ==> s[k] != ':',
    ensures
        find_colon(s) == Some(i),
    decreases i,
{
    if i > 0 {
        assert(forall|k: int| 0 <= k < i - 1 ==> s.drop_first()[k] != ':');
        lemma_find_colon_at(s.drop_first(), i - 1);
    }
}

proof fn lemma_find_colon_none(s: Seq<char>)
    requires
        forall|k: int| 0 <= k < s.len() ==> s[k] != ':',
    ensures
        find_colon(s) is None,
    decreases s.len(),
{
    if s.len() > 0 {
        lemma_find_colon_none(s.drop_first());
    }
}

/// The index of the first colon.
fn find_colon_idx(s: &str) -> (r: Option<usize>)
    ensures
        match r {
            Some(i) => i < s@.len() && find_colon(s@) == Some(i as int),
            None => find_colon(s@) is None,
        },
{
    let len = s.unicode_len();
    let mut i: usize = 0;
    while i < len
        invariant
            i <= len,
            len == s@.len(),
            forall|k: int| 0 <= k < i ==> s@[k] != ':',
        decreases len - i,
    {
        if s.get_char(i) == ':' {
            proof {
                lemma_find_colon_at(s@, i as int);
            }
            return Some(i);
        }
        i = i + 1;
    }
    proof {
        lemma_find_colon_none(s@);
    }
    None
}

/// Parses the previous state, decides whether work is owed, and builds the
/// shadow context when it is.
///
/// `Ok(None)`: nothing to do — nothing was and nothing is shadowed, or the
/// configuration is unchanged. In that case the ledger field is never even
/// read, so a corrupt ledger behind an unchanged hash changes nothing.
pub fn load_env(shadowenv_data: &str, target: Option<Source>, env_vars: Vec<(String, String)>)
    -> (r: Result<Option<Shadowenv>, HookError>)
    ensures
        spec_parse_prev_hash(shadowenv_data@) is None ==> r == Result::<
            Option<Shadowenv>,
            HookError,
        >::Err(HookError::ParseError),
        (spec_parse_prev_hash(shadowenv_data@) is Some && !spec_needs_activation(
            spec_parse_prev_hash(shadowenv_data@)->Some_0,
            spec_target_hash(target),
        )) ==> r == Result::<Option<Shadowenv>, HookError>::Ok(None),
        (spec_parse_prev_hash(shadowenv_data@) is Some && spec_needs_activation(
            spec_parse_prev_hash(shadowenv_data@)->Some_0,
            spec_target_hash(target),
        ) && spec_parse_ledger(spec_ledger_field(shadowenv_data@)) is None) ==> r == Result::<
            Option<Shadowenv>,
            HookError,
        >::Err(HookError::ParseError),
        (spec_parse_prev_hash(shadowenv_data@) is Some && spec_needs_activation(
            spec_parse_prev_hash(shadowenv_data@)->Some_0,
            spec_target_hash(target),
        ) && spec_parse_ledger(spec_ledger_field(shadowenv_data@)) is Some) ==> (r is Ok
            && r->Ok_0 is Some && r->Ok_0->Some_0@ == spec_fresh_view(
            env_view(env_vars@),
            spec_parse_ledger(spec_ledger_field(shadowenv_data@))->Some_0,
            spec_new_target_hash(target),
        ) && r->Ok_0->Some_0.wf()),
{
    let len = shadowenv_data.unicode_len();
    let colon = find_colon_idx(shadowenv_data);
    let hash_field: &str = match colon {
        Some(i) => shadowenv_data.substring_char(0, i),
        None => shadowenv_data,
    };
    proof {
        match find_colon(shadowenv_data@) {
            Some(i) => {
                assert(shadowenv_data@.subrange(0, i) =~= shadowenv_data@.take(i));
            },
            None => {},
        }
        assert(hash_field@ == spec_hash_field(shadowenv_data@));
    }
    let prev: Option<u64> = if hash_field.unicode_len() == 0 {
        None
    } else {
        match parse_hash_hex(hash_field) {
            None => {
                return Err(HookError::ParseError);
            },
            Some(h) => if h == 0 {
                None
            } else {
                Some(h)
            },
        }
    };
    proof {
        assert(spec_parse_prev_hash(shadowenv_data@) == Some(prev));
    }
    let needs = match (&prev, &target) {
        (None, None) => false,
        (Some(p), Some(t)) => *p != t.hash,
        _ => true,
    };
    proof {
        assert(needs == spec_needs_activation(prev, spec_target_hash(target)));
    }
    if !needs {
        return Ok(None);
    }
    let data = match colon {
        Some(i) => {
            let ledger_field = shadowenv_data.substring_char(i + 1, len);
            proof {
                assert(ledger_field@ == spec_ledger_field(shadowenv_data@));
            }
            Data::from_json(ledger_field)
        },
        None => {
            proof {
                reveal_strlit("{}");
                assert(("{}")@ =~= seq!['{', '}']);
                assert(("{}")@ == spec_ledger_field(shadowenv_data@));
            }
            Data::from_json("{}")
        },
    };
    let data = match data {
        None => {
            return Err(HookError::ParseError);
        },
        Some(d) => d,
    };
    let th = match &target {
        Some(t) => t.hash,
        None => 0,
    };
    let se = Shadowenv::new(env_vars, data, th);
    proof {
        assert(se@ =~= spec_fresh_view(
            env_view(env_vars@),
            spec_parse_ledger(spec_ledger_field(shadowenv_data@))->Some_0,
            spec_new_target_hash(target),
        ));
    }
    Ok(Some(se))
}

/// Renders the context's delta and new state string in the chosen format.
pub fn apply_env(shadowenv: &Shadowenv, mode: VariableOutputMode) -> (r: String)
    ensures
        r@ == spec_encode(
            mode,
            spec_state_string(shadowenv@.target_hash, shadowenv@.data),
            shadowenv@.exports,
        ),
{
    let shadowenv_data = shadowenv.format_shadowenv_data();
    match mode {
        VariableOutputMode::PosixMode => encode_posix(shadowenv_data.as_str(), shadowenv.exports()),
        VariableOutputMode::FishMode => encode_fish(shadowenv_data.as_str(), shadowenv.exports()),
        VariableOutputMode::PorcelainMode => encode_porcelain(
            shadowenv_data.as_str(),
            shadowenv.exports(),
        ),
    }
}

/// One whole invocation, from parsed-in state to rendered output.
///
/// `program` is the external configuration runtime's outcome for the target
/// source: its operations, or its opaque failure. It is consulted only when
/// a target exists and a reactivation is owed; when the configuration is
/// unchanged — or nothing was and is shadowed — the result is `Ok(None)`
/// (no output at all), whatever the ledger field or the program hold.
pub fn run(
    shadowenv_data: &str,
    target: Option<Source>,
    env_vars: Vec<(String, String)>,
    program: Result<Vec<ShadowOp>, ()>,
    mode: VariableOutputMode,
) -> (r: Result<Option<RunOutput>, HookError>)
    ensures
        spec_parse_prev_hash(shadowenv_data@) is None ==> r == Result::<
            Option<RunOutput>,
            HookError,
        >::Err(HookError::ParseError),
        (spec_parse_prev_hash(shadowenv_data@) is Some && !spec_needs_activation(
            spec_parse_prev_hash(shadowenv_data@)->Some_0,
            spec_target_hash(target),
        )) ==> r == Result::<Option<RunOutput>, HookError>::Ok(None),
        (spec_parse_prev_hash(shadowenv_data@) is Some && spec_needs_activation(
            spec_parse_prev_hash(shadowenv_data@)->Some_0,
            spec_target_hash(target),
        ) && spec_parse_ledger(spec_ledger_field(shadowenv_data@)) is None) ==> r == Result::<
            Option<RunOutput>,
            HookError,
        >::Err(HookError::ParseError),
        (spec_parse_prev_hash(shadowenv_data@) is Some && spec_needs_activation(
            spec_parse_prev_hash(shadowenv_data@)->Some_0,
            spec_target_hash(target),
        ) && spec_parse_ledger(spec_ledger_field(shadowenv_data@)) is Some && target is Some
            && program is Err) ==> r == Result::<Option<RunOutput>, HookError>::Err(
            HookError::ConfigurationEvaluationFailure,
        ),
        (spec_parse_prev_hash(shadowenv_data@) is Some && spec_needs_activation(
            spec_parse_prev_hash(shadowenv_data@)->Some_0,
            spec_target_hash(target),
        ) && spec_parse_ledger(spec_ledger_field(shadowenv_data@)) is Some && (target is Some
            ==> program is Ok)) ==> (r is Ok && r->Ok_0 is Some && ({
            let out = r->Ok_0->Some_0;
            let led = spec_parse_ledger(spec_ledger_field(shadowenv_data@))->Some_0;
            let fresh = spec_fresh_view(env_view(env_vars@), led, spec_new_target_hash(target));
            let fin = if target is Some {
                spec_apply_ops(fresh, program->Ok_0@)
            } else {
                fresh
            };
            out.output@ == spec_encode(
                mode,
                spec_state_string(spec_new_target_hash(target), fin.data),
                fin.exports,
            ) && out.activated == (target is Some) && strs_view(out.features@) == fin.features
        })),
{
    let mut se = match load_env(shadowenv_data, target, env_vars) {
        Err(e) => {
            return Err(e);
        },
        Ok(None) => {
            return Ok(None);
        },
        Ok(Some(se)) => se,
    };
    let ghost led0 = spec_parse_ledger(spec_ledger_field(shadowenv_data@))->Some_0;
    let ghost fresh0 = se@;
    let activated = match &target {
        Some(_) => true,
        None => false,
    };
    if activated {
        match &program {
            Ok(ops) => {
                apply_ops(&mut se, ops);
            },
            Err(_) => {
                return Err(HookError::ConfigurationEvaluationFailure);
            },
        }
    }
    proof {
        let fin0 = if target is Some {
            spec_apply_ops(fresh0, program->Ok_0@)
        } else {
            fresh0
        };
        assert(se@ == fin0);
        if target is Some {
            lemma_apply_ops_frame(fresh0, program->Ok_0@);
        }
        assert(se@.target_hash == spec_new_target_hash(target));
    }
    let ghost fin0 = se@;
    let output = apply_env(&se, mode);
    let features = se.into_features();
    proof {
        assert(output@ == spec_encode(
            mode,
            spec_state_string(spec_new_target_hash(target), fin0.data),
            fin0.exports,
        ));
        assert(strs_view(features@) == fin0.features);
    }
    Ok(Some(RunOutput { output, activated, features }))
}

// ---------------------------------------------------------------------------
// Laws.
// ---------------------------------------------------------------------------
proof fn lemma_split_state(h: u64, led: LedgerView)
    ensures
        spec_hash_field(spec_state_string(h, led)) == spec_hash_hex(h),
        spec_ledger_field(spec_state_string(h, led)) == spec_ledger_json(led),
{
    let st = spec_state_string(h, led);
    lemma_hex_digits_len(h as int, 16);
    lemma_hex_digits_hex(h as int, 16);
    assert forall|k: int| 0 <= k < 16 implies st[k] != ':' by {
        assert(st[k] == spec_hash_hex(h)[k]);
        assert(is_hex_char(spec_hash_hex(h)[k]));
        assert(hex_val_of(':') == -1);
    }
    assert(st[16] == ':');
    lemma_find_colon_at(st, 16);
    assert(st.take(16) =~= spec_hash_hex(h));
    assert(st.skip(17) =~= spec_ledger_json(led));
}

/// Round-trip: the state string built from any target hash and any
/// well-formed ledger parses back losslessly — the same ledger, and the
/// same hash, with zero reading back as absence.
pub proof fn lemma_state_round_trip(h: u64, led: LedgerView)
    requires
        unique_names(led),
    ensures
        spec_parse_prev_hash(spec_state_string(h, led)) == Some(
            if h == 0 {
                None::<u64>
            } else {
                Some(h)
            },
        ),
        spec_parse_ledger(spec_ledger_field(spec_state_string(h, led))) == Some(led),
{
    lemma_split_state(h, led);
    lemma_hex_digits_len(h as int, 16);
    lemma_hash_hex_round_trip(h);
    lemma_ledger_round_trip(led);
}

/// Idempotence: the state string emitted by an activation for target hash
/// `h` parses back to exactly `h`, so a following invocation against the
/// same unchanged target needs no activation — with `run`'s contract, it
/// returns `Ok(None)` and emits nothing. (A target whose content hashes to
/// the reserved zero value is indistinguishable from absence and is
/// excluded.)
pub proof fn lemma_idempotence(h: u64, led: LedgerView)
    requires
        h != 0,
        unique_names(led),
    ensures
        spec_parse_prev_hash(spec_state_string(h, led)) == Some(Some(h)),
        !spec_needs_activation(Some(h), Some(h)),
{
    lemma_state_round_trip(h, led);
}

/// Hash-sentinel equivalence: an empty hash field — an empty state string,
/// or one that starts with the colon — and the all-zero sentinel all parse
/// to "no previous hash".
pub proof fn lemma_hash_sentinel(s: Seq<char>)
    requires
        spec_hash_field(s).len() == 0 || spec_hash_field(s) == spec_hash_hex(0),
    ensures
        spec_parse_prev_hash(s) == Some(None::<u64>),
{
    if spec_hash_field(s).len() != 0 {
        lemma_hex_digits_len(0, 16);
        lemma_hash_hex_round_trip(0);
    }
}

} // verus!
