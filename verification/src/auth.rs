//! Principals, resources and the authorizer: roles, scopes, tenant boundary,
//! attributes and clearance.

use vstd::prelude::*;
use crate::ordered::Duplicate;
use crate::sorted_map::{Metadata, SortedMap, SortedSet};
use crate::text::{
    chars_of, decimal_of, fields, is_blank, is_blank_str, is_prefix, parse_decimal, parse_u64,
    slice_chars, split_whitespace, starts_with, string_of, texts_of, trim_chars, trim_str,
    trimmed, u64_to_decimal,
};

verus! {

/// What a principal may ask to do.
#[derive(Debug, Clone, Copy, PartialEq, Eq, Hash, Structural)]
pub enum Action {
    Ingest,
    Query,
    Admin,
}

/// A set of actions.
#[derive(Debug, Clone, Copy, PartialEq, Eq, Structural)]
pub struct ActionSet {
    pub ingest: bool,
    pub query: bool,
    pub admin: bool,
}

impl View for ActionSet {
    type V = ActionSet;

    open spec fn view(&self) -> ActionSet {
        *self
    }
}

impl Duplicate for ActionSet {
    fn duplicate(&self) -> (r: Self) {
        *self
    }
}

impl ActionSet {
    /// Whether `action` is in the set.
    pub open spec fn holds(&self, action: Action) -> bool {
        match action {
            Action::Ingest => self.ingest,
            Action::Query => self.query,
            Action::Admin => self.admin,
        }
    }

    /// The set of the actions `actions`.
    pub fn of(actions: &Vec<Action>) -> (s: Self)
        ensures
            forall|a: Action| s.holds(a) <==> actions@.contains(a),
    {
        let mut s = ActionSet { ingest: false, query: false, admin: false };
        let mut i: usize = 0;
        while i < actions.len()
            invariant
                i <= actions.len(),
                forall|a: Action| s.holds(a) <==> actions@.take(i as int).contains(a),
            decreases actions.len() - i,
        {
            let ghost before = s;
            match actions[i] {
                Action::Ingest => {
                    s.ingest = true;
                },
                Action::Query => {
                    s.query = true;
                },
                Action::Admin => {
                    s.admin = true;
                },
            }
            proof {
                let t0 = actions@.take(i as int);
                let t1 = actions@.take(i + 1);
                assert(t1 =~= t0.push(actions@[i as int]));
                assert forall|a: Action| s.holds(a) <==> t1.contains(a) by {
                    assert(before.holds(a) <==> t0.contains(a));
                    assert(s.holds(a) == (before.holds(a) || a == actions@[i as int]));
                    if t1.contains(a) {
                        let j = choose|j: int| 0 <= j < t1.len() && t1[j] == a;
                        if j < i {
                            assert(t0[j] == a);
                            assert(t0.contains(a));
                        }
                    }
                    if t0.contains(a) {
                        let j = choose|j: int| 0 <= j < t0.len() && t0[j] == a;
                        assert(t1[j] == a);
                    }
                    if a == actions@[i as int] {
                        assert(t1[i as int] == a);
                    }
                }
            }
            i += 1;
        }
        assert(actions@.take(actions.len() as int) =~= actions@);
        s
    }

    /// Whether `action` is in the set.
    pub fn contains(&self, action: Action) -> (r: bool)
        ensures
            r == self.holds(action),
    {
        match action {
            Action::Ingest => self.ingest,
            Action::Query => self.query,
            Action::Admin => self.admin,
        }
    }
}

/// Who asks: a subject of a tenant, with roles, scopes and attributes.
#[derive(Debug, PartialEq, Eq)]
pub struct Principal {
    pub subject: String,
    pub tenant: String,
    pub roles: SortedSet<String>,
    pub scopes: SortedSet<String>,
    pub attributes: Metadata,
}

/// The texts of `values`, as a set.
pub open spec fn name_set(values: Seq<String>) -> Set<Seq<char>> {
    Set::new(|t: Seq<char>| exists|i: int| 0 <= i < values.len() && (#[trigger] values[i])@ == t)
}

/// The set of the texts of `values`.
pub fn names(values: &Vec<String>) -> (out: SortedSet<String>)
    ensures
        out@ == name_set(values@),
{
    let mut out: SortedSet<String> = SortedSet::new();
    let mut i: usize = 0;
    assert(out@ =~= name_set(values@.take(0)));
    while i < values.len()
        invariant
            i <= values.len(),
            out@ == name_set(values@.take(i as int)),
        decreases values.len() - i,
    {
        let ghost before = values@.take(i as int);
        let ghost after = values@.take(i + 1);
        let ghost ob = out@;
        out.insert(values[i].clone());
        proof {
            assert(after[i as int] == values@[i as int]);
            assert forall|t: Seq<char>| out@.contains(t) <==> name_set(after).contains(t) by {
                if ob.contains(t) {
                    let j = choose|j: int| 0 <= j < before.len() && (#[trigger] before[j])@ == t;
                    assert(after[j]@ == t);
                }
                if name_set(after).contains(t) {
                    let j = choose|j: int| 0 <= j < after.len() && (#[trigger] after[j])@ == t;
                    if j < i {
                        assert(before[j]@ == t);
                    }
                }
            }
            assert(out@ =~= name_set(after));
        }
        i += 1;
    }
    assert(values@.take(values.len() as int) =~= values@);
    out
}

impl Principal {
    /// A principal without roles, scopes or attributes.
    pub fn new(subject: &str, tenant: &str) -> (p: Self)
        ensures
            p.subject@ == subject@,
            p.tenant@ == tenant@,
            p.roles@ == Set::<Seq<char>>::empty(),
            p.scopes@ == Set::<Seq<char>>::empty(),
            p.attributes@ == Map::<Seq<char>, Seq<char>>::empty(),
    {
        Principal {
            subject: subject.to_owned(),
            tenant: tenant.to_owned(),
            roles: SortedSet::new(),
            scopes: SortedSet::new(),
            attributes: Metadata::new(),
        }
    }

    /// The principal with the roles `roles`, in place of the roles it had.
    pub fn with_roles(self, roles: Vec<String>) -> (p: Self)
        ensures
            p.roles@ == name_set(roles@),
            p.subject == self.subject,
            p.tenant == self.tenant,
            p.scopes == self.scopes,
            p.attributes == self.attributes,
    {
        let mut p = self;
        p.roles = names(&roles);
        p
    }

    /// The principal with the scopes `scopes`, in place of the scopes it had.
    pub fn with_scopes(self, scopes: Vec<String>) -> (p: Self)
        ensures
            p.scopes@ == name_set(scopes@),
            p.subject == self.subject,
            p.tenant == self.tenant,
            p.roles == self.roles,
            p.attributes == self.attributes,
    {
        let mut p = self;
        p.scopes = names(&scopes);
        p
    }

    /// The principal with the attribute `key` at `value`.
    pub fn with_attribute(self, key: &str, value: &str) -> (p: Self)
        ensures
            p.attributes@ == self.attributes@.insert(key@, value@),
            p.subject == self.subject,
            p.tenant == self.tenant,
            p.roles == self.roles,
            p.scopes == self.scopes,
    {
        let mut p = self;
        p.attributes.insert(key.to_owned(), value.to_owned());
        p
    }
}

/// The claims of a token.
#[derive(Debug, PartialEq, Eq)]
pub struct JwtClaims {
    pub sub: String,
    pub tenant: String,
    pub roles: Vec<String>,
    pub scope: Option<String>,
    pub attributes: Metadata,
    pub iss: Option<String>,
    pub aud: Option<String>,
    pub exp: usize,
    pub nbf: Option<usize>,
    pub iat: Option<usize>,
}

/// Why a token does not authenticate.
#[derive(Debug, PartialEq, Eq)]
pub enum AuthError {
    MissingToken,
    InvalidToken(String),
    MissingSubject,
    MissingTenant,
}

impl AuthError {
    /// The message of the error, as characters.
    pub open spec fn message_text(&self) -> Seq<char> {
        match self {
            AuthError::MissingToken => "missing bearer token"@,
            AuthError::InvalidToken(m) => "invalid jwt: "@ + m@,
            AuthError::MissingSubject => "jwt claim sub must not be empty"@,
            AuthError::MissingTenant => "jwt claim tenant must not be empty"@,
        }
    }

    /// The message of the error.
    pub fn message(&self) -> (s: String)
        ensures
            s@ == self.message_text(),
    {
        match self {
            AuthError::MissingToken => "missing bearer token".to_owned(),
            AuthError::InvalidToken(m) => {
                let mut s = "invalid jwt: ".to_owned();
                s.append(m.as_str());
                s
            },
            AuthError::MissingSubject => "jwt claim sub must not be empty".to_owned(),
            AuthError::MissingTenant => "jwt claim tenant must not be empty".to_owned(),
        }
    }
}

/// The roles of the claims `roles`: each trimmed, the blank ones left out.
pub open spec fn claimed_roles(roles: Seq<String>) -> Set<Seq<char>> {
    Set::new(
        |t: Seq<char>|
            exists|i: int|
                0 <= i < roles.len() && !is_blank((#[trigger] roles[i])@) && trimmed(roles[i]@) == t,
    )
}

/// The scopes of the claim `scope`: its words.
pub open spec fn claimed_scopes(scope: Option<String>) -> Set<Seq<char>> {
    match scope {
        Some(s) => fields(s@).to_set(),
        None => Set::empty(),
    }
}

/// The token of an authorization header: the header trimmed, without the
/// scheme `Bearer ` or `bearer ` where it starts with one, and trimmed again.
pub open spec fn bearer_token_of(header: Seq<char>) -> Seq<char> {
    let t = trimmed(header);
    if is_prefix("Bearer "@, t) {
        trimmed(t.skip("Bearer "@.len() as int))
    } else if is_prefix("bearer "@, t) {
        trimmed(t.skip("bearer "@.len() as int))
    } else {
        t
    }
}

/// The token of an authorization header, to be decoded. Fails where nothing
/// is left of the header once the scheme and the white space are taken off.
pub fn bearer_token(header: &str) -> (r: Result<String, AuthError>)
    ensures
        match r {
            Ok(token) => token@ == bearer_token_of(header@) && token@.len() > 0,
            Err(e) => bearer_token_of(header@).len() == 0 && e == AuthError::MissingToken,
        },
{
    let t = trim_chars(&chars_of(header));
    let upper = chars_of("Bearer ");
    let lower = chars_of("bearer ");
    let rest = if starts_with(&t, &upper) {
        trim_chars(&slice_chars(&t, upper.len(), t.len()))
    } else if starts_with(&t, &lower) {
        trim_chars(&slice_chars(&t, lower.len(), t.len()))
    } else {
        t
    };
    if rest.len() == 0 {
        Err(AuthError::MissingToken)
    } else {
        Ok(string_of(&rest))
    }
}

impl Principal {
    /// The principal that the claims of a token describe. Fails where the
    /// subject or the tenant is blank.
    pub fn try_from(claims: JwtClaims) -> (r: Result<Principal, AuthError>)
        ensures
            match r {
                Ok(p) => !is_blank(claims.sub@) && !is_blank(claims.tenant@) && p.subject
                    == claims.sub && p.tenant == claims.tenant && p.attributes == claims.attributes
                    && p.roles@ == claimed_roles(claims.roles@) && p.scopes@ == claimed_scopes(
                    claims.scope,
                ),
                Err(e) => if is_blank(claims.sub@) {
                    e == AuthError::MissingSubject
                } else {
                    is_blank(claims.tenant@) && e == AuthError::MissingTenant
                },
            },
    {
        if is_blank_str(claims.sub.as_str()) {
            return Err(AuthError::MissingSubject);
        }
        if is_blank_str(claims.tenant.as_str()) {
            return Err(AuthError::MissingTenant);
        }
        let mut roles: SortedSet<String> = SortedSet::new();
        let mut i: usize = 0;
        assert(roles@ =~= claimed_roles(claims.roles@.take(0)));
        while i < claims.roles.len()
            invariant
                i <= claims.roles.len(),
                roles@ == claimed_roles(claims.roles@.take(i as int)),
            decreases claims.roles.len() - i,
        {
            let ghost before = claims.roles@.take(i as int);
            let ghost after = claims.roles@.take(i + 1);
            let ghost rb = roles@;
            let role = &claims.roles[i];
            if !is_blank_str(role.as_str()) {
                roles.insert(trim_str(role.as_str()));
            }
            proof {
                assert(after[i as int] == claims.roles@[i as int]);
                assert forall|t: Seq<char>| roles@.contains(t) <==> claimed_roles(after).contains(
                    t,
                ) by {
                    if rb.contains(t) {
                        let j = choose|j: int|
                            0 <= j < before.len() && !is_blank((#[trigger] before[j])@) && trimmed(
                                before[j]@,
                            ) == t;
                        assert(after[j] == before[j]);
                    }
                    if claimed_roles(after).contains(t) {
                        let j = choose|j: int|
                            0 <= j < after.len() && !is_blank((#[trigger] after[j])@) && trimmed(
                                after[j]@,
                            ) == t;
                        if j < i {
                            assert(before[j] == after[j]);
                        }
                    }
                }
                assert(roles@ =~= claimed_roles(after));
            }
            i += 1;
        }
        assert(claims.roles@.take(claims.roles.len() as int) =~= claims.roles@);
        let scopes = match &claims.scope {
            Some(s) => {
                let words = split_whitespace(s.as_str());
                let set = names(&words);
                proof {
                    let f = fields(s@);
                    assert forall|t: Seq<char>| set@.contains(t) <==> f.to_set().contains(t) by {
                        if set@.contains(t) {
                            let j = choose|j: int|
                                0 <= j < words@.len() && (#[trigger] words@[j])@ == t;
                            assert(texts_of(words@)[j] == t);
                            assert(f[j] == t);
                        }
                        if f.contains(t) {
                            let j = choose|j: int| 0 <= j < f.len() && f[j] == t;
                            assert(texts_of(words@)[j] == words@[j]@);
                        }
                    }
                    assert(set@ =~= f.to_set());
                }
                set
            },
            None => SortedSet::new(),
        };
        Ok(
            Principal {
                subject: claims.sub,
                tenant: claims.tenant,
                roles,
                scopes,
                attributes: claims.attributes,
            },
        )
    }
}

/// What is asked for: a resource of a tenant, with the attributes and the
/// clearance that it requires.
#[derive(Debug, PartialEq, Eq)]
pub struct ResourceContext {
    pub tenant: String,
    pub required_attributes: Metadata,
    pub min_clearance_level: Option<u8>,
}

impl Default for ResourceContext {
    fn default() -> (r: Self)
        ensures
            r.tenant@ == Seq::<char>::empty(),
            r.required_attributes@ == Map::<Seq<char>, Seq<char>>::empty(),
            r.min_clearance_level is None,
    {
        ResourceContext {
            tenant: String::new(),
            required_attributes: Metadata::new(),
            min_clearance_level: None,
        }
    }
}

impl ResourceContext {
    /// A resource of `tenant` that requires nothing.
    pub fn new(tenant: &str) -> (r: Self)
        ensures
            r.tenant@ == tenant@,
            r.required_attributes@ == Map::<Seq<char>, Seq<char>>::empty(),
            r.min_clearance_level is None,
    {
        ResourceContext {
            tenant: tenant.to_owned(),
            required_attributes: Metadata::new(),
            min_clearance_level: None,
        }
    }

    /// The resource that also requires the attribute `key` to be `value`.
    pub fn require_attribute(self, key: &str, value: &str) -> (r: Self)
        ensures
            r.required_attributes@ == self.required_attributes@.insert(key@, value@),
            r.tenant == self.tenant,
            r.min_clearance_level == self.min_clearance_level,
    {
        let mut r = self;
        r.required_attributes.insert(key.to_owned(), value.to_owned());
        r
    }

    /// The resource that requires a clearance of at least `level`.
    pub fn require_min_clearance(self, level: u8) -> (r: Self)
        ensures
            r.min_clearance_level == Some(level),
            r.tenant == self.tenant,
            r.required_attributes == self.required_attributes,
    {
        let mut r = self;
        r.min_clearance_level = Some(level);
        r
    }
}

/// Why an action was not authorized.
#[derive(Debug, PartialEq, Eq)]
pub enum AuthzError {
    PermissionDenied { action: Action },
    MissingResourceTenant,
    TenantMismatch { principal_tenant: String, resource_tenant: String },
    MissingAttribute { key: String },
    AttributeMismatch { key: String, expected: String, actual: String },
    InvalidAttributeValue { key: String, value: String },
    InsufficientClearance { required: u8, actual: u8 },
}

/// The name of an action, as it is written in messages.
pub open spec fn action_name(action: Action) -> Seq<char> {
    match action {
        Action::Ingest => "Ingest"@,
        Action::Query => "Query"@,
        Action::Admin => "Admin"@,
    }
}

impl AuthzError {
    /// The message of the error, as characters.
    pub open spec fn message_text(&self) -> Seq<char> {
        match self {
            AuthzError::PermissionDenied { action } => "permission denied for action "@
                + action_name(*action),
            AuthzError::MissingResourceTenant
                => "resource tenant is required when tenant boundary is enabled"@,
            AuthzError::TenantMismatch { principal_tenant, resource_tenant }
                => "tenant boundary violation: principal tenant "@ + principal_tenant@
                + " cannot access "@ + resource_tenant@,
            AuthzError::MissingAttribute { key } => "missing required attribute: "@ + key@,
            AuthzError::AttributeMismatch { key, expected, actual } => "attribute mismatch for "@
                + key@ + ": expected "@ + expected@ + ", got "@ + actual@,
            AuthzError::InvalidAttributeValue { key, value } => "invalid numeric attribute "@ + key@
                + ": "@ + value@,
            AuthzError::InsufficientClearance { required, actual }
                => "insufficient clearance level: required "@ + decimal_of(*required as nat)
                + ", got "@ + decimal_of(*actual as nat),
        }
    }

    /// The message of the error.
    pub fn message(&self) -> (s: String)
        ensures
            s@ == self.message_text(),
    {
        match self {
            AuthzError::PermissionDenied { action } => {
                let mut s = "permission denied for action ".to_owned();
                match action {
                    Action::Ingest => s.append("Ingest"),
                    Action::Query => s.append("Query"),
                    Action::Admin => s.append("Admin"),
                }
                s
            },
            AuthzError::MissingResourceTenant => {
                "resource tenant is required when tenant boundary is enabled".to_owned()
            },
            AuthzError::TenantMismatch { principal_tenant, resource_tenant } => {
                let mut s = "tenant boundary violation: principal tenant ".to_owned();
                s.append(principal_tenant.as_str());
                s.append(" cannot access ");
                s.append(resource_tenant.as_str());
                s
            },
            AuthzError::MissingAttribute { key } => {
                let mut s = "missing required attribute: ".to_owned();
                s.append(key.as_str());
                s
            },
            AuthzError::AttributeMismatch { key, expected, actual } => {
                let mut s = "attribute mismatch for ".to_owned();
                s.append(key.as_str());
                s.append(": expected ");
                s.append(expected.as_str());
                s.append(", got ");
                s.append(actual.as_str());
                s
            },
            AuthzError::InvalidAttributeValue { key, value } => {
                let mut s = "invalid numeric attribute ".to_owned();
                s.append(key.as_str());
                s.append(": ");
                s.append(value.as_str());
                s
            },
            AuthzError::InsufficientClearance { required, actual } => {
                let mut s = "insufficient clearance level: required ".to_owned();
                s.append(u64_to_decimal(*required as u64).as_str());
                s.append(", got ");
                s.append(u64_to_decimal(*actual as u64).as_str());
                s
            },
        }
    }
}

/// Why an action is not authorized, as mathematical values.
pub enum Denial {
    PermissionDenied(Action),
    MissingResourceTenant,
    TenantMismatch(Seq<char>, Seq<char>),
    MissingAttribute(Seq<char>),
    AttributeMismatch(Seq<char>, Seq<char>, Seq<char>),
    InvalidAttributeValue(Seq<char>, Seq<char>),
    InsufficientClearance(u8, u8),
}

impl View for AuthzError {
    type V = Denial;

    open spec fn view(&self) -> Denial {
        match self {
            AuthzError::PermissionDenied { action } => Denial::PermissionDenied(*action),
            AuthzError::MissingResourceTenant => Denial::MissingResourceTenant,
            AuthzError::TenantMismatch { principal_tenant, resource_tenant } => Denial::TenantMismatch(
                principal_tenant@,
                resource_tenant@,
            ),
            AuthzError::MissingAttribute { key } => Denial::MissingAttribute(key@),
            AuthzError::AttributeMismatch { key, expected, actual } => Denial::AttributeMismatch(
                key@,
                expected@,
                actual@,
            ),
            AuthzError::InvalidAttributeValue { key, value } => Denial::InvalidAttributeValue(
                key@,
                value@,
            ),
            AuthzError::InsufficientClearance { required, actual } => Denial::InsufficientClearance(
                *required,
                *actual,
            ),
        }
    }
}

/// Which roles and scopes allow which actions, and whether principals are
/// held to their tenant.
#[derive(Debug, PartialEq, Eq)]
pub struct Authorizer {
    role_permissions: SortedMap<String, ActionSet>,
    ingest_scopes: SortedSet<String>,
    query_scopes: SortedSet<String>,
    admin_scopes: SortedSet<String>,
    enforce_tenant_boundary: bool,
}

/// The rules of an authorizer, as mathematical values.
pub struct Rules {
    pub role_permissions: Map<Seq<char>, ActionSet>,
    pub ingest_scopes: Set<Seq<char>>,
    pub query_scopes: Set<Seq<char>>,
    pub admin_scopes: Set<Seq<char>>,
    pub enforce_tenant_boundary: bool,
}

impl Rules {
    /// The scopes that allow `action`.
    pub open spec fn scopes_for(&self, action: Action) -> Set<Seq<char>> {
        match action {
            Action::Ingest => self.ingest_scopes,
            Action::Query => self.query_scopes,
            Action::Admin => self.admin_scopes,
        }
    }

    /// Whether a principal with the roles `roles` and the scopes `scopes` may
    /// do `action`: one of its roles allows the action or every action, or it
    /// has one of the scopes that allow the action.
    pub open spec fn permits(&self, roles: Set<Seq<char>>, scopes: Set<Seq<char>>, action: Action) -> bool {
        (exists|role: Seq<char>|
            roles.contains(role) && self.role_permissions.contains_key(role) && (
            #[trigger] self.role_permissions[role]).holds(Action::Admin)
                || roles.contains(role) && self.role_permissions.contains_key(role)
                && self.role_permissions[role].holds(action)) || exists|scope: Seq<char>|
            #[trigger] self.scopes_for(action).contains(scope) && scopes.contains(scope)
    }
}

/// The rules of the default authorizer: readers query, ingestors ingest,
/// admins do everything; each action has its scope, and `admin:*` allows
/// every action; principals are held to their tenant.
pub open spec fn default_rules() -> Rules {
    Rules {
        role_permissions: Map::<Seq<char>, ActionSet>::empty().insert(
            "reader"@,
            ActionSet { ingest: false, query: true, admin: false },
        ).insert("ingestor"@, ActionSet { ingest: true, query: false, admin: false }).insert(
            "admin"@,
            ActionSet { ingest: true, query: true, admin: true },
        ),
        ingest_scopes: Set::<Seq<char>>::empty().insert("ingest:write"@).insert("admin:*"@),
        query_scopes: Set::<Seq<char>>::empty().insert("query:execute"@).insert("admin:*"@),
        admin_scopes: Set::<Seq<char>>::empty().insert("admin:*"@),
        enforce_tenant_boundary: true,
    }
}

/// The first of the required attributes `required`, in the order of their
/// keys, that the attributes `actual` do not meet.
pub open spec fn first_attribute_fault(
    required: Seq<(Seq<char>, Seq<char>)>,
    actual: Map<Seq<char>, Seq<char>>,
) -> Option<Denial>
    decreases required.len(),
{
    if required.len() == 0 {
        None
    } else {
        let (key, expected) = required[0];
        if !actual.contains_key(key) {
            Some(Denial::MissingAttribute(key))
        } else if actual[key] != expected {
            Some(Denial::AttributeMismatch(key, expected, actual[key]))
        } else {
            first_attribute_fault(required.drop_first(), actual)
        }
    }
}

/// What keeps a principal with the attributes `attributes` from a resource
/// that requires the clearance `required`, if anything does.
pub open spec fn clearance_fault(required: Option<u8>, attributes: Map<Seq<char>, Seq<char>>) -> Option<
    Denial,
> {
    match required {
        None => None,
        Some(level) => if !attributes.contains_key("clearance_level"@) {
            Some(Denial::MissingAttribute("clearance_level"@))
        } else {
            let raw = attributes["clearance_level"@];
            match parse_decimal(raw) {
                Some(actual) => if actual > 255 {
                    Some(Denial::InvalidAttributeValue("clearance_level"@, raw))
                } else if actual < level {
                    Some(Denial::InsufficientClearance(level, actual as u8))
                } else {
                    None
                },
                None => Some(Denial::InvalidAttributeValue("clearance_level"@, raw)),
            }
        },
    }
}

impl View for Authorizer {
    type V = Rules;

    closed spec fn view(&self) -> Rules {
        Rules {
            role_permissions: self.role_permissions@,
            ingest_scopes: self.ingest_scopes@,
            query_scopes: self.query_scopes@,
            admin_scopes: self.admin_scopes@,
            enforce_tenant_boundary: self.enforce_tenant_boundary,
        }
    }
}

impl Default for Authorizer {
    fn default() -> (a: Self)
        ensures
            a@ == default_rules(),
    {
        let mut role_permissions: SortedMap<String, ActionSet> = SortedMap::new();
        role_permissions.insert(
            "reader".to_owned(),
            ActionSet { ingest: false, query: true, admin: false },
        );
        role_permissions.insert(
            "ingestor".to_owned(),
            ActionSet { ingest: true, query: false, admin: false },
        );
        role_permissions.insert(
            "admin".to_owned(),
            ActionSet { ingest: true, query: true, admin: true },
        );
        let mut ingest_scopes: SortedSet<String> = SortedSet::new();
        ingest_scopes.insert("ingest:write".to_owned());
        ingest_scopes.insert("admin:*".to_owned());
        let mut query_scopes: SortedSet<String> = SortedSet::new();
        query_scopes.insert("query:execute".to_owned());
        query_scopes.insert("admin:*".to_owned());
        let mut admin_scopes: SortedSet<String> = SortedSet::new();
        admin_scopes.insert("admin:*".to_owned());
        Authorizer {
            role_permissions,
            ingest_scopes,
            query_scopes,
            admin_scopes,
            enforce_tenant_boundary: true,
        }
    }
}

/// The outcome of an authorization, by the rules `rules`: the first check that
/// fails, in the order tenant, permission, attributes, clearance.
pub open spec fn denial_of(
    rules: Rules,
    principal: Principal,
    action: Action,
    resource: ResourceContext,
) -> Option<Denial> {
    if rules.enforce_tenant_boundary && is_blank(resource.tenant@) {
        Some(Denial::MissingResourceTenant)
    } else if rules.enforce_tenant_boundary && principal.tenant@ != trimmed(resource.tenant@) {
        Some(Denial::TenantMismatch(principal.tenant@, trimmed(resource.tenant@)))
    } else if !rules.permits(principal.roles@, principal.scopes@, action) {
        Some(Denial::PermissionDenied(action))
    } else if first_attribute_fault(resource.required_attributes.pairs(), principal.attributes@)
        is Some {
        first_attribute_fault(resource.required_attributes.pairs(), principal.attributes@)
    } else {
        clearance_fault(resource.min_clearance_level, principal.attributes@)
    }
}

impl Authorizer {
    /// The default authorizer.
    pub fn new() -> (a: Self)
        ensures
            a@ == default_rules(),
    {
        Authorizer::default()
    }

    /// The authorizer that holds principals to their tenant, or does not.
    pub fn with_tenant_boundary(self, enforce: bool) -> (a: Self)
        ensures
            a@ == (Rules { enforce_tenant_boundary: enforce, ..self@ }),
    {
        let mut a = self;
        a.enforce_tenant_boundary = enforce;
        a
    }

    /// The authorizer in which `role` allows exactly `actions`.
    pub fn with_role_permissions(self, role: &str, actions: Vec<Action>) -> (a: Self)
        ensures
            a@.role_permissions.dom() == self@.role_permissions.dom().insert(role@),
            forall|x: Action| a@.role_permissions[role@].holds(x) <==> actions@.contains(x),
            forall|other: Seq<char>|
                other != role@ && self@.role_permissions.contains_key(other)
                    ==> a@.role_permissions[other] == self@.role_permissions[other],
            a@.ingest_scopes == self@.ingest_scopes,
            a@.query_scopes == self@.query_scopes,
            a@.admin_scopes == self@.admin_scopes,
            a@.enforce_tenant_boundary == self@.enforce_tenant_boundary,
    {
        let mut a = self;
        a.role_permissions.insert(role.to_owned(), ActionSet::of(&actions));
        assert(a@.role_permissions.dom() =~= self@.role_permissions.dom().insert(role@));
        a
    }

    /// The authorizer in which exactly the scopes `scopes` allow `action`.
    pub fn with_action_scopes(self, action: Action, scopes: Vec<String>) -> (a: Self)
        ensures
            a@.scopes_for(action) == name_set(scopes@),
            forall|other: Action| other != action ==> a@.scopes_for(other) == self@.scopes_for(other),
            a@.role_permissions == self@.role_permissions,
            a@.enforce_tenant_boundary == self@.enforce_tenant_boundary,
    {
        let mut a = self;
        let set = names(&scopes);
        match action {
            Action::Ingest => {
                a.ingest_scopes = set;
            },
            Action::Query => {
                a.query_scopes = set;
            },
            Action::Admin => {
                a.admin_scopes = set;
            },
        }
        a
    }

    /// Whether the roles or the scopes of `principal` allow `action`.
    pub fn is_action_permitted(&self, principal: &Principal, action: Action) -> (r: bool)
        ensures
            r == self@.permits(principal.roles@, principal.scopes@, action),
    {
        let roles = principal.roles.to_vec();
        let nr = principal.roles.len();
        let mut role_allows = false;
        let mut i: usize = 0;
        while i < roles.len()
            invariant
                i <= roles.len(),
                roles@.len() == principal.roles.elems().len(),
                forall|j: int| 0 <= j < roles@.len() ==> (#[trigger] roles@[j])@ == principal.roles.elems()[j],
                role_allows ==> self@.permits(principal.roles@, principal.scopes@, action),
                !role_allows ==> forall|j: int|
                    0 <= j < i ==> !(self@.role_permissions.contains_key((#[trigger] roles@[j])@) && (
                    self@.role_permissions[roles@[j]@].holds(Action::Admin)
                        || self@.role_permissions[roles@[j]@].holds(action))),
                forall|k: Seq<char>| principal.roles@.contains(k) <==> principal.roles.elems().contains(k),
            decreases roles.len() - i,
        {
            match self.role_permissions.get(&roles[i]) {
                Some(actions) => {
                    if actions.contains(Action::Admin) || actions.contains(action) {
                        proof {
                            let role = roles@[i as int]@;
                            assert(principal.roles.elems()[i as int] == role);
                            assert(principal.roles.elems().contains(role));
                            assert(principal.roles@.contains(role));
                            assert(self@.role_permissions[role].holds(Action::Admin)
                                || self@.role_permissions[role].holds(action));
                        }
                        role_allows = true;
                    }
                },
                None => {},
            }
            i += 1;
        }
        let required = match action {
            Action::Ingest => &self.ingest_scopes,
            Action::Query => &self.query_scopes,
            Action::Admin => &self.admin_scopes,
        };
        let list = required.to_vec();
        let nq = required.len();
        let mut scope_allows = false;
        let mut k: usize = 0;
        while k < list.len()
            invariant
                k <= list.len(),
                required@ == self@.scopes_for(action),
                list@.len() == required.elems().len(),
                forall|j: int| 0 <= j < list@.len() ==> (#[trigger] list@[j])@ == required.elems()[j],
                forall|t: Seq<char>| required@.contains(t) <==> required.elems().contains(t),
                scope_allows ==> self@.permits(principal.roles@, principal.scopes@, action),
                !scope_allows ==> forall|j: int|
                    0 <= j < k ==> !principal.scopes@.contains((#[trigger] list@[j])@),
            decreases list.len() - k,
        {
            if principal.scopes.contains(&list[k]) {
                proof {
                    let scope = list@[k as int]@;
                    assert(required.elems()[k as int] == scope);
                    assert(required.elems().contains(scope));
                    assert(self@.scopes_for(action).contains(scope));
                }
                scope_allows = true;
            }
            k += 1;
        }
        proof {
            if !role_allows && !scope_allows {
                assert(!self@.permits(principal.roles@, principal.scopes@, action)) by {
                    if self@.permits(principal.roles@, principal.scopes@, action) {
                        if exists|scope: Seq<char>|
                            #[trigger] self@.scopes_for(action).contains(scope)
                                && principal.scopes@.contains(scope) {
                            let scope = choose|scope: Seq<char>|
                                #[trigger] self@.scopes_for(action).contains(scope)
                                    && principal.scopes@.contains(scope);
                            assert(required.elems().contains(scope));
                            let j = choose|j: int|
                                0 <= j < required.elems().len() && required.elems()[j] == scope;
                            assert(list@[j]@ == scope);
                        } else {
                            let role = choose|role: Seq<char>|
                                principal.roles@.contains(role)
                                    && self@.role_permissions.contains_key(role) && (
                                #[trigger] self@.role_permissions[role]).holds(Action::Admin)
                                    || principal.roles@.contains(role)
                                    && self@.role_permissions.contains_key(role)
                                    && self@.role_permissions[role].holds(action);
                            assert(principal.roles.elems().contains(role));
                            let j = choose|j: int|
                                0 <= j < principal.roles.elems().len()
                                    && principal.roles.elems()[j] == role;
                            assert(roles@[j]@ == role);
                        }
                    }
                }
            }
        }
        role_allows || scope_allows
    }

    /// Checks that `principal` has every attribute that `resource` requires,
    /// with the required value; the attributes are checked in the order of
    /// their keys.
    pub fn validate_resource_attributes(&self, principal: &Principal, resource: &ResourceContext) -> (r:
        Result<(), AuthzError>)
        ensures
            match r {
                Ok(()) => first_attribute_fault(
                    resource.required_attributes.pairs(),
                    principal.attributes@,
                ) is None,
                Err(e) => first_attribute_fault(
                    resource.required_attributes.pairs(),
                    principal.attributes@,
                ) == Some(e@),
            },
    {
        let n = resource.required_attributes.len();
        let ghost pairs = resource.required_attributes.pairs();
        let mut i: usize = 0;
        assert(pairs.skip(0) =~= pairs);
        while i < n
            invariant
                n == pairs.len(),
                pairs == resource.required_attributes.pairs(),
                i <= n,
                first_attribute_fault(pairs, principal.attributes@) == first_attribute_fault(
                    pairs.skip(i as int),
                    principal.attributes@,
                ),
            decreases n - i,
        {
            let key = resource.required_attributes.key_at(i);
            let expected = resource.required_attributes.value_at(i);
            proof {
                let rest = pairs.skip(i as int);
                assert(rest[0] == pairs[i as int]);
                assert(rest.drop_first() =~= pairs.skip(i + 1));
            }
            match principal.attributes.get(key) {
                None => {
                    return Err(AuthzError::MissingAttribute { key: key.clone() });
                },
                Some(actual) => {
                    if !crate::text::same_text(actual.as_str(), expected.as_str()) {
                        return Err(
                            AuthzError::AttributeMismatch {
                                key: key.clone(),
                                expected: expected.clone(),
                                actual: actual.clone(),
                            },
                        );
                    }
                },
            }
            i += 1;
        }
        Ok(())
    }

    /// Checks that `principal` has the clearance that `resource` requires: its
    /// attribute `clearance_level` must hold a number from 0 to 255 that is
    /// not below the required level.
    pub fn validate_clearance(&self, principal: &Principal, resource: &ResourceContext) -> (r: Result<
        (),
        AuthzError,
    >)
        ensures
            match r {
                Ok(()) => clearance_fault(resource.min_clearance_level, principal.attributes@)
                    is None,
                Err(e) => clearance_fault(resource.min_clearance_level, principal.attributes@)
                    == Some(e@),
            },
    {
        let required_level = match resource.min_clearance_level {
            None => {
                return Ok(());
            },
            Some(level) => level,
        };
        let key = "clearance_level".to_owned();
        let raw = match principal.attributes.get(&key) {
            None => {
                return Err(AuthzError::MissingAttribute { key });
            },
            Some(raw) => raw,
        };
        let actual: u8 = match parse_u64(raw.as_str()) {
            Some(v) => {
                if v > 255 {
                    return Err(AuthzError::InvalidAttributeValue { key, value: raw.clone() });
                }
                v as u8
            },
            None => {
                return Err(AuthzError::InvalidAttributeValue { key, value: raw.clone() });
            },
        };
        if actual < required_level {
            return Err(AuthzError::InsufficientClearance { required: required_level, actual });
        }
        Ok(())
    }

    /// Decides whether `principal` may do `action` on `resource`: it must be of
    /// the tenant of the resource, where the boundary is enforced; a role or a
    /// scope must allow the action; and it must meet the attributes and the
    /// clearance that the resource requires.
    pub fn authorize(&self, principal: &Principal, action: Action, resource: &ResourceContext) -> (r:
        Result<(), AuthzError>)
        ensures
            match r {
                Ok(()) => denial_of(self@, *principal, action, *resource) is None,
                Err(e) => denial_of(self@, *principal, action, *resource) == Some(e@),
            },
    {
        if self.enforce_tenant_boundary {
            if is_blank_str(resource.tenant.as_str()) {
                return Err(AuthzError::MissingResourceTenant);
            }
            let resource_tenant = trim_str(resource.tenant.as_str());
            if !crate::text::same_text(principal.tenant.as_str(), resource_tenant.as_str()) {
                return Err(
                    AuthzError::TenantMismatch {
                        principal_tenant: principal.tenant.clone(),
                        resource_tenant,
                    },
                );
            }
        }
        if !self.is_action_permitted(principal, action) {
            return Err(AuthzError::PermissionDenied { action });
        }
        match self.validate_resource_attributes(principal, resource) {
            Err(e) => {
                return Err(e);
            },
            Ok(()) => {},
        }
        self.validate_clearance(principal, resource)
    }
}

impl AuthzError {
    /// The canonical code of the error.
    pub fn error_code(&self) -> (c: crate::error::ErrorCode)
        ensures
            c == crate::error::ErrorCode::PermissionDenied,
    {
        crate::error::ErrorCode::PermissionDenied
    }
}

} // verus!
