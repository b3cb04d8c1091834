use break_time::scheduler::plugins::{
    aggregate_results, CanBreak, ConfigError, Plugin, PluginError, Plugins,
};
use break_time::scheduler::{Notification, Scheduler, State};

struct Always(CanBreak);

impl Plugin for Always {
    fn can_break_now(&self) -> Result<CanBreak, PluginError> {
        Ok(self.0)
    }
}

struct Failing;

impl Plugin for Failing {
    fn can_break_now(&self) -> Result<CanBreak, PluginError> {
        Err(PluginError {
            message: "could not reach the advisor".to_owned(),
        })
    }
}

#[test]
fn combine_is_commutative() {
    let cases = [
        (CanBreak::Yes, CanBreak::Yes),
        (CanBreak::Yes, CanBreak::No),
        (CanBreak::No, CanBreak::Yes),
        (CanBreak::No, CanBreak::No),
    ];
    for (a, b) in cases {
        assert_eq!(a.combine(&b), b.combine(&a));
    }
}

#[test]
fn combine_yes_yes_is_yes() {
    assert_eq!(CanBreak::Yes.combine(&CanBreak::Yes), CanBreak::Yes);
}

#[test]
fn combine_with_no_is_no() {
    assert_eq!(CanBreak::Yes.combine(&CanBreak::No), CanBreak::No);
    assert_eq!(CanBreak::No.combine(&CanBreak::No), CanBreak::No);
    assert_eq!(CanBreak::No.combine(&CanBreak::Yes), CanBreak::No);
}

#[test]
fn combine_is_associative_on_all_triples() {
    let all = [CanBreak::Yes, CanBreak::No];
    for a in all {
        for b in all {
            for c in all {
                assert_eq!(a.combine(&b).combine(&c), a.combine(&b.combine(&c)));
            }
        }
    }
}

#[test]
fn bool_round_trip() {
    assert!(CanBreak::Yes.into_bool());
    assert!(!CanBreak::No.into_bool());
    assert_eq!(CanBreak::from_bool(true), CanBreak::Yes);
    assert_eq!(CanBreak::from_bool(false), CanBreak::No);
}

#[test]
fn aggregate_all_yes_is_yes() {
    let results = vec![Ok(CanBreak::Yes), Ok(CanBreak::Yes), Ok(CanBreak::Yes)];
    let (decision, errors) = aggregate_results(results);
    assert_eq!(decision, Some(CanBreak::Yes));
    assert!(errors.is_empty());
}

#[test]
fn aggregate_one_no_is_no() {
    let results = vec![Ok(CanBreak::Yes), Ok(CanBreak::No), Ok(CanBreak::Yes)];
    let (decision, errors) = aggregate_results(results);
    assert_eq!(decision, Some(CanBreak::No));
    assert!(errors.is_empty());
}

#[test]
fn aggregate_keeps_partial_decision_and_errors_apart() {
    let results = vec![
        Ok(CanBreak::Yes),
        Err(PluginError {
            message: "calendar unavailable".to_owned(),
        }),
    ];
    let (decision, errors) = aggregate_results(results);
    assert_eq!(decision, Some(CanBreak::Yes));
    assert_eq!(errors.len(), 1);
    assert_eq!(errors[0].message, "calendar unavailable");
}

#[test]
fn aggregate_of_nothing_is_nothing() {
    let (decision, errors) = aggregate_results(Vec::new());
    assert_eq!(decision, None);
    assert!(errors.is_empty());
}

#[test]
fn empty_registry_is_rejected_at_construction() {
    match Plugins::new(Vec::new()) {
        Err(e) => assert_eq!(e, ConfigError::NoPluginsConfigured),
        Ok(_) => panic!("a registry with zero advisors must be refused"),
    }
}

#[test]
fn registry_polls_every_advisor() {
    let advisors: Vec<Box<dyn Plugin>> = vec![
        Box::new(Always(CanBreak::Yes)),
        Box::new(Always(CanBreak::Yes)),
        Box::new(Always(CanBreak::Yes)),
    ];
    let plugins = match Plugins::new(advisors) {
        Ok(p) => p,
        Err(_) => panic!("three advisors must be accepted"),
    };
    assert_eq!(plugins.num_plugins(), 3);
    let (decision, errors) = plugins.can_break_now();
    assert_eq!(decision, Some(CanBreak::Yes));
    assert!(errors.is_empty());
}

#[test]
fn one_failing_advisor_makes_the_round_unusable() {
    let advisors: Vec<Box<dyn Plugin>> = vec![Box::new(Always(CanBreak::Yes)), Box::new(Failing)];
    let plugins = match Plugins::new(advisors) {
        Ok(p) => p,
        Err(_) => panic!("two advisors must be accepted"),
    };
    let (decision, errors) = plugins.can_break_now();
    // The partial decision survives, but with an error beside it the
    // scheduler must not act on it: the round resolves to "cannot break".
    assert_eq!(decision, Some(CanBreak::Yes));
    assert_eq!(errors.len(), 1);
    let mut sched = Scheduler::new(plugins, 300);
    let notification = sched.handle_round(decision, &errors);
    assert_eq!(notification, None);
    assert_eq!(sched.state, State::CountDownToBreak);
}

#[test]
fn clean_yes_round_starts_the_break() {
    let advisors: Vec<Box<dyn Plugin>> = vec![Box::new(Always(CanBreak::Yes))];
    let plugins = match Plugins::new(advisors) {
        Ok(p) => p,
        Err(_) => panic!("one advisor must be accepted"),
    };
    let mut sched = Scheduler::new(plugins, 300);
    let notification = sched.run_round();
    assert_eq!(notification, Some(Notification::StartBreak));
    assert_eq!(sched.state, State::WaitingForBreakEnd);
}

#[test]
fn clean_no_round_keeps_counting() {
    let advisors: Vec<Box<dyn Plugin>> =
        vec![Box::new(Always(CanBreak::Yes)), Box::new(Always(CanBreak::No))];
    let plugins = match Plugins::new(advisors) {
        Ok(p) => p,
        Err(_) => panic!("two advisors must be accepted"),
    };
    let mut sched = Scheduler::new(plugins, 300);
    let notification = sched.run_round();
    assert_eq!(notification, None);
    assert_eq!(sched.state, State::CountDownToBreak);
}
