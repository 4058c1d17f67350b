use std::cell::Cell;
use std::rc::Rc;

use token_checker::checkers::string::StringChecker;

#[derive(Debug, PartialEq, Eq, Clone, Copy)]
struct RoleX;

#[derive(Debug, PartialEq, Eq, Clone, Copy)]
struct RoleY(u32);

#[derive(Debug, PartialEq, Eq, Clone, Copy)]
enum Grant {
    Admin,
    Guest,
}

type OnceOnly<T> = StringChecker<T, fn() -> Option<T>>;

#[test]
fn scenario_a_once_token_resolves_once() {
    let mut checker: OnceOnly<RoleX> = StringChecker::new();
    checker.add_once("tok-A", RoleX);
    assert_eq!(checker.get_role_for_token("tok-A"), Some(RoleX));
    assert_eq!(checker.get_role_for_token("tok-A"), None);
}

#[test]
fn scenario_b_counter_generator_regenerates() {
    let counter = Cell::new(0u32);
    let generator = move || {
        let n = counter.get();
        counter.set(n + 1);
        Some(RoleY(n))
    };
    let mut checker = StringChecker::new();
    checker.add_multiple("tok-B", generator);
    assert_eq!(checker.get_role_for_token("tok-B"), Some(RoleY(0)));
    assert_eq!(checker.get_role_for_token("tok-B"), Some(RoleY(1)));
}

#[test]
fn scenario_c_multiple_overwrites_once() {
    let calls = Rc::new(Cell::new(0u32));
    let seen = calls.clone();
    let generator = move || {
        seen.set(seen.get() + 1);
        Some(Grant::Guest)
    };
    let mut checker = StringChecker::new();
    checker.add_once("tok-C", Grant::Admin);
    checker.add_multiple("tok-C", generator);
    assert_eq!(checker.get_role_for_token("tok-C"), Some(Grant::Guest));
    assert_eq!(calls.get(), 1);
}

#[test]
fn scenario_d_unknown_token_on_empty_registry() {
    let mut checker: OnceOnly<RoleX> = StringChecker::new();
    assert_eq!(checker.get_role_for_token("never-seen"), None);
}

#[test]
fn once_token_stays_consumed_until_registered_again() {
    let mut checker: OnceOnly<RoleY> = StringChecker::new();
    checker.add_once("quota", RoleY(9));
    assert_eq!(checker.get_role_for_token("quota"), Some(RoleY(9)));
    assert_eq!(checker.get_role_for_token("quota"), None);
    assert_eq!(checker.get_role_for_token("quota"), None);
    checker.add_once("quota", RoleY(10));
    assert_eq!(checker.get_role_for_token("quota"), Some(RoleY(10)));
    assert_eq!(checker.get_role_for_token("quota"), None);
}

#[test]
fn multiple_rule_invoked_exactly_once_per_lookup() {
    let calls = Rc::new(Cell::new(0u32));
    let seen = calls.clone();
    let generator = move || {
        seen.set(seen.get() + 1);
        Some(RoleX)
    };
    let mut checker = StringChecker::new();
    checker.add_multiple("svc", generator);
    assert_eq!(calls.get(), 0);
    assert_eq!(checker.get_role_for_token("svc"), Some(RoleX));
    assert_eq!(calls.get(), 1);
    assert_eq!(checker.get_role_for_token("svc"), Some(RoleX));
    assert_eq!(calls.get(), 2);
}

#[test]
fn declining_generator_yields_nothing_but_stays_registered() {
    let calls = Rc::new(Cell::new(0u32));
    let seen = calls.clone();
    let generator = move || {
        seen.set(seen.get() + 1);
        None::<RoleX>
    };
    let mut checker = StringChecker::new();
    checker.add_multiple("denied", generator);
    assert_eq!(checker.get_role_for_token("denied"), None);
    assert_eq!(checker.get_role_for_token("denied"), None);
    assert_eq!(calls.get(), 2);
}

#[test]
fn once_overwrites_multiple() {
    let generator = || Some(Grant::Guest);
    let mut checker = StringChecker::new();
    checker.add_multiple("badge", generator);
    checker.add_once("badge", Grant::Admin);
    assert_eq!(checker.get_role_for_token("badge"), Some(Grant::Admin));
    assert_eq!(checker.get_role_for_token("badge"), None);
}

#[test]
fn once_overwrites_once_last_registration_wins() {
    let mut checker: OnceOnly<RoleY> = StringChecker::new();
    checker.add_once("tok", RoleY(1));
    checker.add_once("tok", RoleY(2));
    assert_eq!(checker.get_role_for_token("tok"), Some(RoleY(2)));
    assert_eq!(checker.get_role_for_token("tok"), None);
}

#[test]
fn empty_string_is_a_legal_token() {
    let mut checker: OnceOnly<RoleX> = StringChecker::new();
    checker.add_once("", RoleX);
    assert_eq!(checker.get_role_for_token(""), Some(RoleX));
    assert_eq!(checker.get_role_for_token(""), None);
}

#[test]
fn consuming_one_token_leaves_others_alone() {
    let mut checker: OnceOnly<RoleY> = StringChecker::new();
    checker.add_once("first", RoleY(1));
    checker.add_once("second", RoleY(2));
    assert_eq!(checker.get_role_for_token("first"), Some(RoleY(1)));
    assert_eq!(checker.get_role_for_token("second"), Some(RoleY(2)));
    assert_eq!(checker.get_role_for_token("first"), None);
    assert_eq!(checker.get_role_for_token("second"), None);
}

#[test]
fn tokens_match_by_exact_string_equality() {
    let mut checker: OnceOnly<RoleX> = StringChecker::new();
    checker.add_once("Token", RoleX);
    assert_eq!(checker.get_role_for_token("token"), None);
    assert_eq!(checker.get_role_for_token("Token "), None);
    assert_eq!(checker.get_role_for_token("Token"), Some(RoleX));
}
