use indev::actions::compile;
use indev::actions::ArgError;
use indev::actions::GroupKind;
use indev::actions::Invocation;

fn toks(words: &[&str]) -> Vec<Vec<u8>> {
    words.iter().map(|w| w.as_bytes().to_vec()).collect()
}

#[test]
fn no_tokens_print_the_registry() {
    assert!(matches!(
        compile(&Vec::new()),
        Ok(Invocation::PrintRegistry)
    ));
}

#[test]
fn a_lone_help_token_prints_usage() {
    assert!(matches!(compile(&toks(&["-h"])), Ok(Invocation::Usage)));
    assert!(matches!(compile(&toks(&["--help"])), Ok(Invocation::Usage)));
}

#[test]
fn the_first_token_must_be_a_verb() {
    assert_eq!(
        compile(&toks(&["xyz"])).err(),
        Some(ArgError::UnrecognizedToken)
    );
    assert_eq!(
        compile(&toks(&["-x", "a"])).err(),
        Some(ArgError::UnrecognizedToken)
    );
}

#[test]
fn one_query_group_gathers_its_patterns() {
    let r = compile(&toks(&["-q", "Gamepad", "1"])).unwrap();
    let gs = match r {
        Invocation::Groups(gs) => gs,
        _ => panic!("expected groups"),
    };
    assert_eq!(gs.len(), 1);
    assert!(matches!(gs[0].kind, GroupKind::Query));
    assert_eq!(gs[0].pats, vec![b"Gamepad".to_vec(), b"1".to_vec()]);
}

#[test]
fn nested_verbs_open_groups_in_declaration_order() {
    let r = compile(&toks(&["-q", "a", "-q", "b", "c"])).unwrap();
    let gs = match r {
        Invocation::Groups(gs) => gs,
        _ => panic!("expected groups"),
    };
    assert_eq!(gs.len(), 2);
    assert_eq!(gs[0].pats, vec![b"a".to_vec()]);
    assert_eq!(gs[1].pats, vec![b"b".to_vec(), b"c".to_vec()]);
}

#[test]
fn a_query_run_may_open_a_bind_group() {
    let r = compile(&toks(&["-q", "a", "-b", "b"])).unwrap();
    let gs = match r {
        Invocation::Groups(gs) => gs,
        _ => panic!("expected groups"),
    };
    assert_eq!(gs.len(), 2);
    assert!(matches!(gs[0].kind, GroupKind::Query));
    assert!(matches!(gs[1].kind, GroupKind::Bind(_)));
    assert_eq!(gs[1].pats, vec![b"b".to_vec()]);
}

#[test]
fn bind_flags_rewrite_the_options() {
    let r = compile(&toks(&["-b", "-e", "-lo", "log.txt", "pad"])).unwrap();
    let gs = match r {
        Invocation::Groups(gs) => gs,
        _ => panic!("expected groups"),
    };
    assert_eq!(gs.len(), 1);
    let o = match &gs[0].kind {
        GroupKind::Bind(o) => o,
        _ => panic!("expected a bind group"),
    };
    assert!(!o.raw);
    assert!(!o.stdout);
    assert!(o.overwrite);
    assert!(!o.with_date);
    assert_eq!(o.path, Some(b"log.txt".to_vec()));
    assert_eq!(gs[0].pats, vec![b"pad".to_vec()]);
}

#[test]
fn a_fresh_bind_group_reads_raw_to_the_terminal() {
    let r = compile(&toks(&["-b"])).unwrap();
    let gs = match r {
        Invocation::Groups(gs) => gs,
        _ => panic!("expected groups"),
    };
    let o = match &gs[0].kind {
        GroupKind::Bind(o) => o,
        _ => panic!("expected a bind group"),
    };
    assert!(o.raw);
    assert!(o.stdout);
    assert!(!o.overwrite);
    assert!(!o.with_date);
    assert_eq!(o.path, None);
    assert!(gs[0].pats.is_empty());
}

#[test]
fn raw_and_decoded_flags_overwrite_each_other() {
    let r = compile(&toks(&["-b", "-e", "-r"])).unwrap();
    let gs = match r {
        Invocation::Groups(gs) => gs,
        _ => panic!("expected groups"),
    };
    let o = match &gs[0].kind {
        GroupKind::Bind(o) => o,
        _ => panic!("expected a bind group"),
    };
    assert!(o.raw);
    let r2 = compile(&toks(&["-b", "-r", "-d"])).unwrap();
    let gs2 = match r2 {
        Invocation::Groups(gs2) => gs2,
        _ => panic!("expected groups"),
    };
    let o2 = match &gs2[0].kind {
        GroupKind::Bind(o2) => o2,
        _ => panic!("expected a bind group"),
    };
    assert!(!o2.raw);
}

#[test]
fn later_log_flags_win() {
    let r = compile(&toks(&["-b", "-lo", "f", "-lc", "g"])).unwrap();
    let gs = match r {
        Invocation::Groups(gs) => gs,
        _ => panic!("expected groups"),
    };
    let o = match &gs[0].kind {
        GroupKind::Bind(o) => o,
        _ => panic!("expected a bind group"),
    };
    assert!(!o.overwrite);
    assert_eq!(o.path, Some(b"g".to_vec()));
}

#[test]
fn date_stamping_excludes_overwriting() {
    let r = compile(&toks(&["-b", "-lo", "f", "-ld", "g"])).unwrap();
    let gs = match r {
        Invocation::Groups(gs) => gs,
        _ => panic!("expected groups"),
    };
    let o = match &gs[0].kind {
        GroupKind::Bind(o) => o,
        _ => panic!("expected a bind group"),
    };
    assert!(o.with_date);
    assert!(!o.overwrite);
}

#[test]
fn a_log_flag_needs_its_path() {
    assert_eq!(
        compile(&toks(&["-b", "-l"])).err(),
        Some(ArgError::MissingLogPath)
    );
    assert_eq!(
        compile(&toks(&["-b", "pad", "-ld"])).err(),
        Some(ArgError::MissingLogPath)
    );
}

#[test]
fn an_unknown_flag_is_fatal() {
    assert_eq!(
        compile(&toks(&["-q", "-e"])).err(),
        Some(ArgError::UnrecognizedToken)
    );
    assert_eq!(
        compile(&toks(&["-b", "--frobnicate"])).err(),
        Some(ArgError::UnrecognizedToken)
    );
}
