use norgolith::build_flow::{build_first, build_next, config_gate, BuildAction, BuildStage, StepOutcome};

fn run(outcomes: Vec<StepOutcome>) -> (Vec<BuildStage>, BuildAction) {
    let (mut stage, mut action) = build_first();
    let mut seen = vec![stage];
    for o in &outcomes {
        let (s, a) = build_next(stage, o);
        stage = s;
        action = a;
        seen.push(stage);
    }
    (seen, action)
}

fn good_config() -> StepOutcome {
    StepOutcome::Config { parse_error: None, validation_errors: vec![] }
}

#[test]
fn config_gate_reports_parse_then_validation_errors() {
    assert_eq!(config_gate(None, &vec![]), Ok(()));
    assert_eq!(
        config_gate(Some("expected `=`".into()), &vec!["x".into()]),
        Err("Failed to parse site configuration: expected `=`".to_string())
    );
    assert_eq!(
        config_gate(None, &vec!["root_url is empty".into(), "title is empty".into()]),
        Err("Site configuration has validation errors:\nroot_url is empty\ntitle is empty".to_string())
    );
}

#[test]
fn bad_config_stops_before_anything_is_touched() {
    let bad = StepOutcome::Config { parse_error: None, validation_errors: vec!["bad".into()] };
    let (seen, action) = run(vec![StepOutcome::Succeeded, StepOutcome::Succeeded, bad, StepOutcome::Succeeded]);
    assert_eq!(
        seen,
        vec![BuildStage::FindConfig, BuildStage::ReadConfig, BuildStage::CheckConfig, BuildStage::Stopped, BuildStage::Stopped]
    );
    assert!(matches!(action, BuildAction::Fail(_)));
    let (_, first_fail) = {
        let (s, _) = build_first();
        let (s, _) = build_next(s, &StepOutcome::Succeeded);
        let (s, _) = build_next(s, &StepOutcome::Succeeded);
        build_next(s, &StepOutcome::Config { parse_error: None, validation_errors: vec!["bad".into()] })
    };
    match first_fail {
        BuildAction::Fail(m) => assert_eq!(m, "Site configuration has validation errors:\nbad"),
        _ => panic!("expected a failure"),
    }
}

#[test]
fn missing_config_stops_the_build() {
    let (seen, action) = run(vec![StepOutcome::NotFound]);
    assert_eq!(seen, vec![BuildStage::FindConfig, BuildStage::Stopped]);
    match action {
        BuildAction::Fail(m) => assert_eq!(m, "Could not build the site: not in a Norgolith site directory"),
        _ => panic!("expected a failure"),
    }
}

#[test]
fn good_build_runs_every_step_in_order() {
    let mut outcomes = vec![StepOutcome::Succeeded, StepOutcome::Succeeded, good_config()];
    for _ in 0..14 {
        outcomes.push(StepOutcome::Succeeded);
    }
    let (seen, action) = run(outcomes);
    assert_eq!(seen.len(), 18);
    assert_eq!(seen[3], BuildStage::InitTemplates);
    assert_eq!(seen[4], BuildStage::LoadPlugins);
    assert_eq!(seen[6], BuildStage::ClearPublic);
    assert_eq!(seen[16], BuildStage::SaveCache);
    assert_eq!(seen[17], BuildStage::Done);
    assert!(matches!(action, BuildAction::Finish));
}

#[test]
fn hook_and_cache_failures_do_not_stop_the_build() {
    let (s, a) = build_next(BuildStage::PreBuildHooks, &StepOutcome::Failed("hook failed".into()));
    assert_eq!(s, BuildStage::ClearPublic);
    assert!(matches!(a, BuildAction::Run(BuildStage::ClearPublic)));
    let (s, a) = build_next(BuildStage::SaveCache, &StepOutcome::Failed("disk full".into()));
    assert_eq!(s, BuildStage::Done);
    assert!(matches!(a, BuildAction::Finish));
    let (s, a) = build_next(BuildStage::WritePages, &StepOutcome::Failed("render failed".into()));
    assert_eq!(s, BuildStage::Stopped);
    match a {
        BuildAction::Fail(m) => assert_eq!(m, "render failed"),
        _ => panic!("expected a failure"),
    }
}
