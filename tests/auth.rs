use sports_day::{
    choose_email, AuthConfig, AuthDecision, Authentication, ProviderEmail, UserSessions, Users,
    VerifiedSession,
};

fn session(verified: bool, has_admin: bool, has_set_score: bool) -> VerifiedSession {
    VerifiedSession { verified, has_admin, has_set_score }
}

fn email(e: &str, verified: bool) -> ProviderEmail {
    ProviderEmail { email: e.to_string(), verified }
}

#[test]
fn config_constructors() {
    let a = AuthConfig::require_admin();
    assert!(a.require_admin && !a.require_set_score);
    let b = AuthConfig::require_set_score();
    assert!(!b.require_admin && b.require_set_score);
    let c = AuthConfig::require_both();
    assert!(c.require_admin && c.require_set_score);
    let d = AuthConfig::require_authenticated();
    assert!(!d.require_admin && !d.require_set_score);
    let guard = Authentication::new(AuthConfig::require_admin());
    assert!(guard.config.require_admin);
}

#[test]
fn missing_cookie_and_invalid_session_are_unauthorized() {
    let c = AuthConfig::require_authenticated();
    assert_eq!(c.decide(None), AuthDecision::MissingCookie);
    assert_eq!(c.decide(None).status(), 401);
    let s = session(false, true, true);
    assert_eq!(c.decide(Some(&s)), AuthDecision::InvalidSession);
    assert_eq!(c.decide(Some(&s)).status(), 401);
}

#[test]
fn permissions_are_checked_admin_first() {
    let none = session(true, false, false);
    assert_eq!(AuthConfig::require_both().decide(Some(&none)), AuthDecision::AdminRequired);
    assert_eq!(AuthConfig::require_set_score().decide(Some(&none)), AuthDecision::SetScoreRequired);
    assert_eq!(AuthConfig::require_set_score().decide(Some(&none)).status(), 403);
    assert_eq!(AuthConfig::require_authenticated().decide(Some(&none)), AuthDecision::Allowed);
    let admin = session(true, true, false);
    assert_eq!(AuthConfig::require_admin().decide(Some(&admin)), AuthDecision::Allowed);
    assert_eq!(AuthConfig::require_both().decide(Some(&admin)), AuthDecision::SetScoreRequired);
    let both = session(true, true, true);
    assert_eq!(AuthConfig::require_both().decide(Some(&both)), AuthDecision::Allowed);
    assert_eq!(AuthConfig::require_both().decide(Some(&both)).status(), 200);
}

#[test]
fn lookup_verdicts() {
    let stored = UserSessions::new(4, true, false);
    let v = VerifiedSession::from_lookup(Some(&stored));
    assert!(v.verified && v.has_admin && !v.has_set_score);
    let v = VerifiedSession::from_lookup(None);
    assert!(!v.verified && !v.has_admin && !v.has_set_score);
}

#[test]
fn sessions_get_fresh_ids() {
    let user = Users { id: Some(7), email: "a@b.c".to_string(), has_admin: false, has_set_score: true };
    let first = UserSessions::new(7, false, true);
    let second = user.new_session();
    assert_eq!(second.user_id, 7);
    assert!(!second.has_admin && second.has_set_score);
    assert!(!first.id.is_empty());
    assert_ne!(first.id, second.id);
}

#[test]
fn new_user_is_unsaved() {
    let u = Users::new("x@y.z".to_string(), true, false);
    assert!(u.id.is_none());
    assert_eq!(u.email, "x@y.z");
    assert!(u.has_admin && !u.has_set_score);
}

#[test]
fn preferred_domain_address_wins() {
    let emails = vec![
        email("me@example.com", true),
        email("a@utcsheffield.org.uk", true),
        email("b@utcsheffield.org.uk", false),
        email("c@utcsheffield.org.uk", true),
        email("d@example.org", true),
    ];
    assert_eq!(choose_email(&emails), Some("c@utcsheffield.org.uk".to_string()));
}

#[test]
fn first_verified_address_otherwise() {
    let emails = vec![email("x@example.com", false), email("y@example.com", true), email("z@example.com", true)];
    assert_eq!(choose_email(&emails), Some("y@example.com".to_string()));
}

#[test]
fn no_verified_address() {
    assert_eq!(choose_email(&vec![email("x@utcsheffield.org.uk", false)]), None);
    assert_eq!(choose_email(&vec![]), None);
}
