use mflm::greeter::{Action, AfterLogin, Escape, Greeter, Mode, RedrawPlan, Target};
use mflm::settings::Login;

fn target(name: &str, argv: &[&str]) -> Target {
    Target { name: name.to_string(), argv: argv.iter().map(|s| s.to_string()).collect() }
}

fn two_targets() -> Vec<Target> {
    vec![target("gnome", &["gnome-session"]), target("sway", &["sway", "--unsupported-gpu"])]
}

fn login(username: Option<&str>, target: Option<&str>) -> Login {
    Login { username: username.map(str::to_string), target: target.map(str::to_string) }
}

fn feed(g: &mut Greeter, bytes: &[u8]) -> Vec<Action> {
    bytes.iter().map(|b| g.handle_byte(*b)).collect()
}

fn text(v: &[char]) -> String {
    v.iter().collect()
}

#[test]
fn scenario_target_cycles_with_right_arrow() {
    let mut g = Greeter::new(two_targets(), &login(None, None));
    assert_eq!(g.mode, Mode::EditingUsername);
    feed(&mut g, b"\x1b[A");
    assert_eq!(g.mode, Mode::SelectingSession);
    assert_eq!(g.target_index, 0);
    feed(&mut g, b"\x1b[C");
    assert_eq!(g.target_index, 1);
    feed(&mut g, b"\x1b[C");
    assert_eq!(g.target_index, 0);
    feed(&mut g, b"\x1b[D");
    assert_eq!(g.target_index, 1);
}

#[test]
fn scenario_forced_username_failed_login() {
    let mut g = Greeter::new(two_targets(), &login(Some("alice"), None));
    assert_eq!(g.mode, Mode::EditingPassword);
    let actions = feed(&mut g, b"secret\r");
    match actions.last() {
        Some(Action::Login(r)) => {
            assert_eq!(text(&r.username), "alice");
            assert_eq!(text(&r.password), "secret");
            assert_eq!(g.targets[r.target].argv, vec!["gnome-session".to_string()]);
        }
        other => panic!("expected a login, got {other:?}"),
    }
    assert!(g.password.is_empty());
    assert_eq!(g.login_result(false), AfterLogin::Retry);
    assert_eq!(g.mode, Mode::EditingPassword);
    assert!(g.password.is_empty());
    assert!(g.username.is_empty());
    assert!(g.forced_username.is_some());
}

#[test]
fn scenario_username_then_empty_password_returns() {
    let mut g = Greeter::new(two_targets(), &login(None, None));
    feed(&mut g, b"\x1b[A");
    assert_eq!(g.mode, Mode::SelectingSession);
    feed(&mut g, b"\t");
    assert_eq!(g.mode, Mode::EditingUsername);
    feed(&mut g, b"bob");
    assert_eq!(text(&g.username), "bob");
    feed(&mut g, b"\r");
    assert_eq!(g.mode, Mode::EditingPassword);
    feed(&mut g, b"\r");
    assert_eq!(g.mode, Mode::EditingUsername);
    assert!(g.username.is_empty());
}

#[test]
fn unknown_escape_changes_nothing() {
    let mut g = Greeter::new(two_targets(), &login(None, None));
    feed(&mut g, b"ab\t");
    feed(&mut g, b"pw");
    let (mode, user, pass, idx) = (g.mode, g.username.clone(), g.password.clone(), g.target_index);
    let actions = feed(&mut g, b"\x1b[Z");
    assert!(actions.iter().all(|a| matches!(a, Action::Continue)));
    assert_eq!((g.mode, g.username.clone(), g.password.clone(), g.target_index), (mode, user, pass, idx));
    assert_eq!(g.escape, Escape::Idle);
}

#[test]
fn escape_then_other_byte_is_dropped() {
    let mut g = Greeter::new(two_targets(), &login(None, None));
    feed(&mut g, b"\x1bxy");
    assert_eq!(text(&g.username), "y");
}

#[test]
fn cycling_forward_stays_allowed_in_every_configuration() {
    let configs = [(None, None), (Some("u"), None), (None, Some("sway")), (Some("u"), Some("sway"))];
    for (user, tgt) in configs {
        let mut g = Greeter::new(two_targets(), &login(user, tgt));
        let start = g.mode;
        let allowed = |m: Mode| match m {
            Mode::SelectingSession => tgt.is_none(),
            Mode::EditingUsername => user.is_none(),
            Mode::EditingPassword => true,
        };
        let count = 1 + tgt.is_none() as usize + user.is_none() as usize;
        for step in 1..=9 {
            feed(&mut g, b"\t");
            assert!(allowed(g.mode), "{user:?} {tgt:?} step {step}: {:?}", g.mode);
            if step % count == 0 {
                assert_eq!(g.mode, start);
            }
        }
        for _ in 0..6 {
            feed(&mut g, b"\x1b[B");
            assert!(allowed(g.mode));
        }
        for _ in 0..6 {
            feed(&mut g, b"\x1b[A");
            assert!(allowed(g.mode));
        }
    }
}

#[test]
fn forced_target_is_locked_and_selected() {
    let g = Greeter::new(two_targets(), &login(None, Some("  sway ")));
    assert!(g.lock_target);
    assert_eq!(g.target_index, 1);
    let g = Greeter::new(two_targets(), &login(None, Some("kde")));
    assert!(!g.lock_target);
    assert_eq!(g.target_index, 0);
    let g = Greeter::new(two_targets(), &login(None, Some("   ")));
    assert!(!g.lock_target);
}

#[test]
fn forced_username_is_trimmed() {
    let mut g = Greeter::new(two_targets(), &login(Some("  alice\t"), None));
    assert_eq!(text(g.forced_username.as_ref().unwrap()), "alice");
    match feed(&mut g, b"x\r").pop() {
        Some(Action::Login(r)) => assert_eq!(text(&r.username), "alice"),
        other => panic!("expected a login, got {other:?}"),
    }
    let g = Greeter::new(two_targets(), &login(Some("  "), None));
    assert!(g.forced_username.is_none());
    assert_eq!(g.mode, Mode::EditingUsername);
}

#[test]
fn successful_login_empties_buffers() {
    let mut g = Greeter::new(two_targets(), &login(None, None));
    feed(&mut g, b"bob\rpw");
    assert!(matches!(g.handle_byte(b'\r'), Action::Login(_)));
    assert!(g.password.is_empty());
    assert_eq!(g.login_result(true), AfterLogin::Done);
    assert!(g.username.is_empty() && g.password.is_empty());
}

#[test]
fn failed_login_returns_to_username() {
    let mut g = Greeter::new(two_targets(), &login(None, None));
    feed(&mut g, b"bob\rpw\r");
    assert_eq!(g.login_result(false), AfterLogin::Retry);
    assert_eq!(g.mode, Mode::EditingUsername);
    assert!(g.username.is_empty() && g.password.is_empty());
    assert!(g.had_failure);
}

#[test]
fn editing_keys() {
    let mut g = Greeter::new(two_targets(), &login(None, None));
    feed(&mut g, b"abc\x7f");
    assert_eq!(text(&g.username), "ab");
    feed(&mut g, b"\x15");
    assert!(g.username.is_empty());
    feed(&mut g, b"\x7f");
    assert!(g.username.is_empty());
    feed(&mut g, b"z\rpq\x0b");
    assert_eq!(g.mode, Mode::EditingPassword);
    assert!(g.password.is_empty());
    feed(&mut g, b"\xe9");
    assert_eq!(text(&g.password), "\u{e9}");
}

#[test]
fn enter_on_empty_username_does_nothing() {
    let mut g = Greeter::new(two_targets(), &login(None, None));
    feed(&mut g, b"\r");
    assert_eq!(g.mode, Mode::EditingUsername);
}

#[test]
fn selecting_session_ignores_text() {
    let mut g = Greeter::new(two_targets(), &login(None, None));
    feed(&mut g, b"\x1b[Ahello\x7f\x15");
    assert_eq!(g.mode, Mode::SelectingSession);
    assert!(g.username.is_empty());
    feed(&mut g, b"\r");
    assert_eq!(g.mode, Mode::EditingUsername);
}

#[test]
fn arrows_move_target_only_when_selecting() {
    let mut g = Greeter::new(two_targets(), &login(None, None));
    feed(&mut g, b"\x1b[C");
    assert_eq!(g.target_index, 0);
    let mut g = Greeter::new(two_targets(), &login(Some("u"), Some("gnome")));
    feed(&mut g, b"\x1b[A\x1b[C");
    assert_eq!(g.mode, Mode::EditingPassword);
    assert_eq!(g.target_index, 0);
}

#[test]
fn quit_clears_both_buffers() {
    let mut g = Greeter::new(two_targets(), &login(None, None));
    feed(&mut g, b"bob\rpw");
    assert!(matches!(g.handle_byte(0x03), Action::Quit));
    assert!(g.username.is_empty() && g.password.is_empty());
    let mut g = Greeter::new(two_targets(), &login(None, None));
    assert!(matches!(g.handle_byte(0x04), Action::Quit));
}

#[test]
fn redraw_plan_follows_changes() {
    let mut g = Greeter::new(two_targets(), &login(None, None));
    let first = g.plan_redraw();
    assert_eq!(
        first,
        RedrawPlan { chrome: false, target: false, username: true, username_clear: false, password: false, password_clear: false }
    );
    feed(&mut g, b"ab");
    let p = g.plan_redraw();
    assert!(p.username && !p.username_clear && !p.password && !p.chrome);
    feed(&mut g, b"\x7f");
    let p = g.plan_redraw();
    assert!(p.username && p.username_clear);
    assert_eq!(g.plan_redraw(), RedrawPlan { chrome: false, target: false, username: false, username_clear: false, password: false, password_clear: false });
    feed(&mut g, b"\x1b[A");
    let p = g.plan_redraw();
    assert!(p.chrome && p.target && p.username && p.password && p.username_clear && p.password_clear);
    feed(&mut g, b"\x1b[C");
    let p = g.plan_redraw();
    assert!(p.target && !p.chrome && !p.username && !p.password);
}

#[test]
fn redraw_after_failure_repaints_everything() {
    let mut g = Greeter::new(two_targets(), &login(Some("alice"), Some("sway")));
    g.plan_redraw();
    feed(&mut g, b"pw\r");
    g.login_result(false);
    let p = g.plan_redraw();
    assert!(p.chrome && p.password && !p.username && !p.target);
    assert!(!g.plan_redraw().chrome);
}

#[test]
fn target_from_entry_fields() {
    let t = Target::from_entry(Some("Sway".to_string()), "sway", Some("sway --flag 'a b'")).unwrap();
    assert_eq!(t.name, "Sway");
    assert_eq!(t.argv, vec!["sway".to_string(), "--flag".to_string(), "a b".to_string()]);
    let t = Target::from_entry(None, "plasma", Some("startplasma")).unwrap();
    assert_eq!(t.name, "plasma");
    assert!(Target::from_entry(None, "x", None).is_none());
    assert!(Target::from_entry(None, "x", Some("run 'open")).is_none());
}

#[test]
fn from_trimmed_takes_texts_as_given() {
    let g = Greeter::from_trimmed(two_targets(), Some(" bob"), Some("sway"));
    assert_eq!(text(g.forced_username.as_ref().unwrap()), " bob");
    assert!(g.lock_target);
    assert_eq!(g.target_index, 1);
    let g = Greeter::from_trimmed(two_targets(), Some(""), Some(" sway"));
    assert!(g.forced_username.is_none());
    assert!(!g.lock_target);
    assert_eq!(g.target_index, 0);
    let g = Greeter::from_trimmed(two_targets(), None, None);
    assert_eq!(g.mode, Mode::EditingUsername);
}

#[test]
fn trimming_strips_unicode_white_space() {
    let g = Greeter::new(two_targets(), &login(Some("\u{3000}\u{a0}alice\u{2029}\n"), Some("\u{85}gnome\u{200a}")));
    assert_eq!(text(g.forced_username.as_ref().unwrap()), "alice");
    assert!(g.lock_target);
    assert_eq!(g.target_index, 0);
}

#[test]
fn identical_targets_pick_the_first() {
    let targets = vec![target("a", &["1"]), target("b", &["2"]), target("b", &["3"])];
    let g = Greeter::new(targets, &login(None, Some("b")));
    assert_eq!(g.target_index, 1);
}
