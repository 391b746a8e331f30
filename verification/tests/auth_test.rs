use alayasiki::auth::{
    bearer_token, Action, AuthError, Authorizer, AuthzError, JwtClaims, Principal,
    ResourceContext,
};
use alayasiki::sorted_map::Metadata;

fn strings(items: &[&str]) -> Vec<String> {
    items.iter().map(|s| s.to_string()).collect()
}

#[test]
fn authorizes_with_rbac() {
    let principal = Principal::new("u1", "acme").with_roles(strings(&["ingestor"]));
    let resource = ResourceContext::new("acme");
    let authorizer = Authorizer::default();

    let result = authorizer.authorize(&principal, Action::Ingest, &resource);
    assert!(result.is_ok());
}

#[test]
fn authorizes_with_scope() {
    let principal = Principal::new("u1", "acme").with_scopes(strings(&["query:execute"]));
    let resource = ResourceContext::new("acme");
    let authorizer = Authorizer::default();

    let result = authorizer.authorize(&principal, Action::Query, &resource);
    assert!(result.is_ok());
}

#[test]
fn denies_missing_permission() {
    let principal = Principal::new("u1", "acme").with_roles(strings(&["reader"]));
    let resource = ResourceContext::new("acme");
    let authorizer = Authorizer::default();

    let result = authorizer.authorize(&principal, Action::Ingest, &resource);
    assert!(matches!(result, Err(AuthzError::PermissionDenied { .. })));
}

#[test]
fn denies_tenant_mismatch() {
    let principal = Principal::new("u1", "acme").with_roles(strings(&["reader"]));
    let resource = ResourceContext::new("other-tenant");
    let authorizer = Authorizer::default();

    let result = authorizer.authorize(&principal, Action::Query, &resource);
    assert!(matches!(result, Err(AuthzError::TenantMismatch { .. })));
}

#[test]
fn denies_missing_resource_tenant_by_default() {
    let principal = Principal::new("u1", "acme").with_roles(strings(&["reader"]));
    let resource = ResourceContext::default();
    let authorizer = Authorizer::default();

    let result = authorizer.authorize(&principal, Action::Query, &resource);
    assert!(matches!(result, Err(AuthzError::MissingResourceTenant)));
}

#[test]
fn denies_attribute_mismatch() {
    let principal = Principal::new("u1", "acme")
        .with_roles(strings(&["reader"]))
        .with_attribute("department", "sales");
    let resource = ResourceContext::new("acme").require_attribute("department", "finance");
    let authorizer = Authorizer::default();

    let result = authorizer.authorize(&principal, Action::Query, &resource);
    assert!(matches!(result, Err(AuthzError::AttributeMismatch { .. })));
}

#[test]
fn denies_insufficient_clearance() {
    let principal = Principal::new("u1", "acme")
        .with_roles(strings(&["reader"]))
        .with_attribute("clearance_level", "2");
    let resource = ResourceContext::new("acme").require_min_clearance(3);
    let authorizer = Authorizer::default();

    let result = authorizer.authorize(&principal, Action::Query, &resource);
    assert!(matches!(
        result,
        Err(AuthzError::InsufficientClearance { .. })
    ));
}

#[test]
fn tenant_mismatch_reports_both_tenants() {
    let principal = Principal::new("u1", "acme").with_roles(strings(&["reader"]));
    let resource = ResourceContext::new("  globex ");
    let result = Authorizer::new().authorize(&principal, Action::Query, &resource);
    assert_eq!(
        result,
        Err(AuthzError::TenantMismatch {
            principal_tenant: "acme".to_string(),
            resource_tenant: "globex".to_string(),
        })
    );
}

#[test]
fn admin_role_allows_every_action() {
    let principal = Principal::new("root", "acme").with_roles(strings(&["admin"]));
    let resource = ResourceContext::new("acme");
    let authorizer = Authorizer::new();
    assert!(authorizer.authorize(&principal, Action::Ingest, &resource).is_ok());
    assert!(authorizer.authorize(&principal, Action::Query, &resource).is_ok());
    assert!(authorizer.authorize(&principal, Action::Admin, &resource).is_ok());
}

#[test]
fn admin_scope_allows_every_action() {
    let principal = Principal::new("svc", "acme").with_scopes(strings(&["admin:*"]));
    let resource = ResourceContext::new("acme");
    let authorizer = Authorizer::new();
    assert!(authorizer.is_action_permitted(&principal, Action::Ingest));
    assert!(authorizer.is_action_permitted(&principal, Action::Query));
    assert!(authorizer.is_action_permitted(&principal, Action::Admin));
    assert!(authorizer.authorize(&principal, Action::Admin, &resource).is_ok());
}

#[test]
fn tenant_boundary_can_be_switched_off() {
    let principal = Principal::new("u1", "acme").with_roles(strings(&["reader"]));
    let resource = ResourceContext::new("elsewhere");
    let authorizer = Authorizer::new().with_tenant_boundary(false);
    assert!(authorizer.authorize(&principal, Action::Query, &resource).is_ok());
}

#[test]
fn custom_role_and_scope_rules_apply() {
    let authorizer = Authorizer::new()
        .with_role_permissions("auditor", vec![Action::Query])
        .with_action_scopes(Action::Ingest, strings(&["bulk:load"]));
    let resource = ResourceContext::new("acme");

    let auditor = Principal::new("a", "acme").with_roles(strings(&["auditor"]));
    assert!(authorizer.authorize(&auditor, Action::Query, &resource).is_ok());
    assert_eq!(
        authorizer.authorize(&auditor, Action::Ingest, &resource),
        Err(AuthzError::PermissionDenied { action: Action::Ingest })
    );

    let loader = Principal::new("l", "acme").with_scopes(strings(&["bulk:load"]));
    assert!(authorizer.authorize(&loader, Action::Ingest, &resource).is_ok());
    let old_scope = Principal::new("o", "acme").with_scopes(strings(&["ingest:write"]));
    assert!(authorizer.authorize(&old_scope, Action::Ingest, &resource).is_err());
}

#[test]
fn missing_attribute_is_reported_by_key() {
    let principal = Principal::new("u1", "acme").with_roles(strings(&["reader"]));
    let resource = ResourceContext::new("acme")
        .require_attribute("project", "apollo")
        .require_attribute("department", "finance");
    let result = Authorizer::new().authorize(&principal, Action::Query, &resource);
    assert_eq!(
        result,
        Err(AuthzError::MissingAttribute { key: "department".to_string() })
    );
}

#[test]
fn clearance_must_be_a_small_number() {
    let resource = ResourceContext::new("acme").require_min_clearance(3);
    let authorizer = Authorizer::new();

    let none = Principal::new("u", "acme").with_roles(strings(&["reader"]));
    assert_eq!(
        authorizer.validate_clearance(&none, &resource),
        Err(AuthzError::MissingAttribute { key: "clearance_level".to_string() })
    );
    let bad = Principal::new("u", "acme").with_attribute("clearance_level", "high");
    assert_eq!(
        authorizer.validate_clearance(&bad, &resource),
        Err(AuthzError::InvalidAttributeValue {
            key: "clearance_level".to_string(),
            value: "high".to_string(),
        })
    );
    let too_big = Principal::new("u", "acme").with_attribute("clearance_level", "256");
    assert!(matches!(
        authorizer.validate_clearance(&too_big, &resource),
        Err(AuthzError::InvalidAttributeValue { .. })
    ));
    let low = Principal::new("u", "acme").with_attribute("clearance_level", "2");
    assert_eq!(
        authorizer.validate_clearance(&low, &resource),
        Err(AuthzError::InsufficientClearance { required: 3, actual: 2 })
    );
    let enough = Principal::new("u", "acme").with_attribute("clearance_level", "3");
    assert!(authorizer.validate_clearance(&enough, &resource).is_ok());
}

fn claims(sub: &str, tenant: &str, roles: &[&str], scope: Option<&str>) -> JwtClaims {
    JwtClaims {
        sub: sub.to_string(),
        tenant: tenant.to_string(),
        roles: strings(roles),
        scope: scope.map(|s| s.to_string()),
        attributes: Metadata::new(),
        iss: None,
        aud: None,
        exp: 0,
        nbf: None,
        iat: None,
    }
}

#[test]
fn principal_from_claims_trims_roles_and_splits_scopes() {
    let principal = Principal::try_from(claims(
        "user-1",
        "acme",
        &[" reader ", "", "  "],
        Some("query:execute   ingest:write"),
    ))
    .unwrap();
    assert_eq!(principal.subject, "user-1");
    assert_eq!(principal.tenant, "acme");
    assert!(principal.roles.contains(&"reader".to_string()));
    assert_eq!(principal.roles.len(), 1);
    assert!(principal.scopes.contains(&"query:execute".to_string()));
    assert!(principal.scopes.contains(&"ingest:write".to_string()));
    assert_eq!(principal.scopes.len(), 2);
}

#[test]
fn principal_from_claims_needs_subject_and_tenant() {
    assert_eq!(
        Principal::try_from(claims("  ", "acme", &[], None)),
        Err(AuthError::MissingSubject)
    );
    assert_eq!(
        Principal::try_from(claims("u", "", &[], None)),
        Err(AuthError::MissingTenant)
    );
}

#[test]
fn bearer_scheme_is_taken_off_the_header() {
    assert_eq!(bearer_token("Bearer abc.def.ghi"), Ok("abc.def.ghi".to_string()));
    assert_eq!(bearer_token("  bearer   abc  "), Ok("abc".to_string()));
    assert_eq!(bearer_token("abc"), Ok("abc".to_string()));
    assert_eq!(bearer_token("BEARER abc"), Ok("BEARER abc".to_string()));
    assert_eq!(bearer_token("Bearerabc"), Ok("Bearerabc".to_string()));
    assert_eq!(bearer_token(""), Err(AuthError::MissingToken));
    assert_eq!(bearer_token("   "), Err(AuthError::MissingToken));
    assert_eq!(bearer_token("Bearer   "), Ok("Bearer".to_string()));
    assert_eq!(AuthError::MissingToken.message(), "missing bearer token");
    assert_eq!(
        AuthError::InvalidToken("ExpiredSignature".to_string()).message(),
        "invalid jwt: ExpiredSignature"
    );
}

#[test]
fn denials_have_messages() {
    assert_eq!(
        AuthzError::PermissionDenied { action: Action::Admin }.message(),
        "permission denied for action Admin"
    );
    assert_eq!(
        AuthzError::TenantMismatch {
            principal_tenant: "a".to_string(),
            resource_tenant: "b".to_string()
        }
        .message(),
        "tenant boundary violation: principal tenant a cannot access b"
    );
    assert_eq!(
        AuthzError::AttributeMismatch {
            key: "k".to_string(),
            expected: "x".to_string(),
            actual: "y".to_string()
        }
        .message(),
        "attribute mismatch for k: expected x, got y"
    );
    assert_eq!(
        AuthzError::InsufficientClearance { required: 3, actual: 2 }.message(),
        "insufficient clearance level: required 3, got 2"
    );
    assert_eq!(
        AuthzError::MissingResourceTenant.message(),
        "resource tenant is required when tenant boundary is enabled"
    );
}
