use shadowenv::hash::{fingerprint, Source};
use shadowenv::hook::{load_env, run, HookError, RunOutput, ShadowOp, VariableOutputMode};
use shadowenv::undo::{Data, Entry};

fn env(pairs: &[(&str, &str)]) -> Vec<(String, String)> {
    pairs.iter().map(|(k, v)| (k.to_string(), v.to_string())).collect()
}

fn set(name: &str, value: &str) -> ShadowOp {
    ShadowOp::SetVariable { name: name.to_string(), value: Some(value.to_string()) }
}

fn unset(name: &str) -> ShadowOp {
    ShadowOp::SetVariable { name: name.to_string(), value: None }
}

fn out_of(r: Result<Option<RunOutput>, HookError>) -> RunOutput {
    match r {
        Ok(Some(out)) => out,
        other => panic!("expected an activation, got {:?}", other.is_ok()),
    }
}

#[test]
fn absence_yields_empty_output() {
    // Nothing was shadowed and nothing is: no output, regardless of what
    // sits in the ledger field.
    let r = run("", None, env(&[]), Ok(vec![]), VariableOutputMode::PosixMode);
    assert!(matches!(r, Ok(None)));
    let r = run(":this is not even json", None, env(&[]), Ok(vec![]), VariableOutputMode::PosixMode);
    assert!(matches!(r, Ok(None)));
    let r = run(
        "0000000000000000:{\"corrupt\"",
        None,
        env(&[("HOME", "/root")]),
        Ok(vec![]),
        VariableOutputMode::FishMode,
    );
    assert!(matches!(r, Ok(None)));
}

#[test]
fn hash_sentinel_forms_parse_to_absence() {
    // "", the all-zero sentinel, and a missing hash field all mean "no
    // previous hash"; with no target either, nothing happens.
    for s in ["", "0000000000000000", ":{}"] {
        let r = run(s, None, env(&[]), Ok(vec![]), VariableOutputMode::PosixMode);
        assert!(matches!(r, Ok(None)), "state {:?} should be a no-op", s);
    }
    // But a real previous hash with no target forces a deactivation run.
    let r = run("00000000000000aa:{}", None, env(&[]), Ok(vec![]), VariableOutputMode::PosixMode);
    assert!(matches!(r, Ok(Some(_))));
}

#[test]
fn unchanged_hash_is_a_no_op() {
    let target = Some(Source { hash: 0xaa });
    let r = run("00000000000000aa:{}", target, env(&[]), Ok(vec![]), VariableOutputMode::PosixMode);
    assert!(matches!(r, Ok(None)));
    // A changed hash is not.
    let r = run("00000000000000ab:{}", target, env(&[]), Ok(vec![]), VariableOutputMode::PosixMode);
    assert!(matches!(r, Ok(Some(_))));
}

#[test]
fn idempotence_second_run_is_empty() {
    // First real activation from a blank state...
    let target = Some(Source { hash: 0x2a });
    let mut se = load_env("", target, env(&[("FOO", "orig")]))
        .expect("parses")
        .expect("activates");
    se.set_variable("FOO".to_string(), Some("bar".to_string()));
    let emitted = se.format_shadowenv_data();
    // ...and the emitted state string makes the second call a no-op.
    let r = run(&emitted, target, env(&[("FOO", "bar")]), Ok(vec![set("FOO", "bar")]),
        VariableOutputMode::PosixMode);
    assert!(matches!(r, Ok(None)));
}

#[test]
fn malformed_hash_is_a_parse_error() {
    let r = run("nothexdigits!!:{}", None, env(&[]), Ok(vec![]), VariableOutputMode::PosixMode);
    assert!(matches!(r, Err(HookError::ParseError)));
    // Too short for the canonical form is malformed too.
    let r = run("abc:{}", None, env(&[]), Ok(vec![]), VariableOutputMode::PosixMode);
    assert!(matches!(r, Err(HookError::ParseError)));
}

#[test]
fn malformed_ledger_is_a_parse_error_when_work_is_owed() {
    let target = Some(Source { hash: 0xbb });
    let r = run("00000000000000aa:{broken", target, env(&[]), Ok(vec![]),
        VariableOutputMode::PosixMode);
    assert!(matches!(r, Err(HookError::ParseError)));
    // A ledger recording the same name twice is not a mapping.
    let r = run("00000000000000aa:{\"A\":null,\"A\":null}", target, env(&[]), Ok(vec![]),
        VariableOutputMode::PosixMode);
    assert!(matches!(r, Err(HookError::ParseError)));
}

#[test]
fn failed_program_surfaces_as_evaluation_failure() {
    let target = Some(Source { hash: 0x2a });
    let r = run("", target, env(&[]), Err(()), VariableOutputMode::PosixMode);
    assert!(matches!(r, Err(HookError::ConfigurationEvaluationFailure)));
}

#[test]
fn full_restoration_on_removal() {
    // A previous activation set FOO (whose pre-shadow original was unset)
    // and clobbered BAZ (originally "bazval"). With no target left, both
    // must be restored.
    let state = "00000000000000aa:{\"FOO\":null,\"BAZ\":\"bazval\"}";
    let out = out_of(run(state, None, env(&[("FOO", "bar")]), Ok(vec![]),
        VariableOutputMode::PosixMode));
    assert!(!out.activated);
    assert_eq!(
        out.output,
        "__shadowenv_data='0000000000000000:{}'\nunset FOO\nexport BAZ=bazval\n"
    );
}

#[test]
fn activation_records_originals_and_exports() {
    let target = Some(Source { hash: 0xff });
    let ops = vec![set("FOO", "shadowed"), unset("GONE")];
    let out = out_of(run("", target, env(&[("FOO", "orig"), ("KEEP", "k")]), Ok(ops),
        VariableOutputMode::PosixMode));
    assert!(out.activated);
    // The new state records each clobbered variable's original, in order.
    assert_eq!(
        out.output,
        "__shadowenv_data='00000000000000ff:{\"FOO\":\"orig\",\"GONE\":null}'\n\
         export FOO=shadowed\nunset GONE\n"
    );
}

#[test]
fn reactivation_restores_untouched_variables() {
    // The old activation shadowed OLD; the new program only sets NEW, so
    // OLD goes back to its original and leaves the ledger.
    let state = "0000000000000001:{\"OLD\":\"before\"}";
    let target = Some(Source { hash: 0x2 });
    let out = out_of(run(state, target, env(&[("OLD", "shadowed")]), Ok(vec![set("NEW", "n")]),
        VariableOutputMode::PosixMode));
    assert_eq!(
        out.output,
        "__shadowenv_data='0000000000000002:{\"NEW\":null}'\nexport OLD=before\nexport NEW=n\n"
    );
}

#[test]
fn porcelain_framing() {
    // Export map {A: Some("1"), B: None}: exactly one opcode-2 record for A
    // with value 1, one opcode-3 record for B with an empty value, each
    // 0x1E-terminated, after the opcode-1 state pseudo-record.
    let target = Some(Source { hash: 0x10 });
    let ops = vec![set("A", "1"), unset("B")];
    let out = out_of(run("", target, env(&[]), Ok(ops), VariableOutputMode::PorcelainMode));
    assert_eq!(
        out.output,
        "\x01\x1f__shadowenv_data\x1f0000000000000010:{\"A\":null,\"B\":null}\x1e\
         \x02\x1fA\x1f1\x1e\x03\x1fB\x1f\x1e"
    );
}

#[test]
fn fish_mode_splits_the_search_path() {
    let target = Some(Source { hash: 0x10 });
    let ops = vec![set("PATH", "/a:/b"), set("OTHER", "x:y"), unset("GONE")];
    let out = out_of(run("", target, env(&[]), Ok(ops), VariableOutputMode::FishMode));
    let lines: Vec<&str> = out.output.lines().collect();
    assert_eq!(lines[1], "set -gx PATH '/a' '/b'");
    assert_eq!(lines[2], "set -gx OTHER 'x:y'");
    assert_eq!(lines[3], "set -e GONE");
}

#[test]
fn features_are_collected_once() {
    let target = Some(Source { hash: 0x10 });
    let ops = vec![
        ShadowOp::AddFeature { name: "ruby:3.3".to_string() },
        ShadowOp::AddFeature { name: "ruby:3.3".to_string() },
        ShadowOp::AddFeature { name: "node".to_string() },
    ];
    let out = out_of(run("", target, env(&[]), Ok(ops), VariableOutputMode::PosixMode));
    assert_eq!(out.features, vec!["ruby:3.3".to_string(), "node".to_string()]);
}

#[test]
fn state_string_round_trips_awkward_values() {
    // Arbitrary names/values survive serialize -> parse: empty values,
    // embedded colons, quotes, backslashes, and control characters.
    let d = Data {
        entries: vec![
            Entry { name: "A:B".to_string(), original: Some("with:colons".to_string()) },
            Entry { name: "Q".to_string(), original: Some("say \"hi\" \\ there".to_string()) },
            Entry { name: "C".to_string(), original: Some("line\nbreak\x1etoo".to_string()) },
            Entry { name: "EMPTY".to_string(), original: Some(String::new()) },
            Entry { name: "UNSET".to_string(), original: None },
        ],
    };
    let doc = d.to_json();
    let back = Data::from_json(&doc).expect("canonical document parses");
    assert_eq!(back.entries.len(), d.entries.len());
    for (a, b) in d.entries.iter().zip(back.entries.iter()) {
        assert_eq!(a.name, b.name);
        assert_eq!(a.original, b.original);
    }
    // The escapes are the canonical JSON ones.
    assert_eq!(
        doc,
        "{\"A:B\":\"with:colons\",\"Q\":\"say \\\"hi\\\" \\\\ there\",\
         \"C\":\"line\\u000abreak\\u001etoo\",\"EMPTY\":\"\",\"UNSET\":null}"
    );
}

#[test]
fn ledger_survives_a_full_trip_through_the_engine() {
    // Run once to emit a state string holding awkward originals, then hand
    // it back and watch them replayed intact.
    let target = Some(Source { hash: 0x7 });
    let mut se = load_env("", target, env(&[("W", "a 'quoted' $5:\nvalue")]))
        .expect("parses")
        .expect("activates");
    se.set_variable("W".to_string(), Some("shadow".to_string()));
    let emitted = se.format_shadowenv_data();
    let out = out_of(run(&emitted, None, env(&[("W", "shadow")]), Ok(vec![]),
        VariableOutputMode::PosixMode));
    assert_eq!(
        out.output,
        "__shadowenv_data='0000000000000000:{}'\nexport W='a '\\''quoted'\\'' $5:\n\
         value'\n"
    );
}

#[test]
fn hash_canonical_text_round_trips() {
    let h = shadowenv::hash::Hash { hash: 0xdead_beef_0123_4567 };
    let text = h.to_hex();
    assert_eq!(text, "deadbeef01234567");
    let back = shadowenv::hash::Hash::from_hex(&text).expect("canonical form parses");
    assert_eq!(back, h);
    assert_eq!(shadowenv::hash::Hash::from_hex("DEADBEEF01234567"), Some(h));
    assert!(shadowenv::hash::Hash::from_hex("deadbeef").is_none());
    assert!(shadowenv::hash::Hash::from_hex("deadbeef0123456z").is_none());
    assert!(shadowenv::hash::Hash::from_hex("").is_none());
    assert_eq!(shadowenv::hash::Hash { hash: 0 }.to_hex(), "0000000000000000");
}

#[test]
fn fingerprint_matches_known_values() {
    assert_eq!(fingerprint(b""), 0xcbf2_9ce4_8422_2325);
    assert_eq!(fingerprint(b"a"), 0xaf63_dc4c_8601_ec8c);
    assert_eq!(fingerprint(b"foobar"), 0x85944171f73967e8);
    // Deterministic: the same bytes always give the same source hash.
    assert_eq!(fingerprint(b"echo hi"), fingerprint(b"echo hi"));
}
