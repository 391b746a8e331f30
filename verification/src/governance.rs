//! Tenant governance: data residency, retention and encryption at rest.

use vstd::prelude::*;
use crate::engine::copy_opt;
use crate::ordered::Duplicate;
use crate::sorted_map::SortedMap;
use crate::text::{is_blank, is_blank_str, same_text, trim_str, trimmed};

verus! {

/// Whether and under which key the data of a tenant is encrypted at rest.
#[derive(Debug, PartialEq, Eq)]
pub struct EncryptionPolicy {
    pub at_rest_encryption: bool,
    pub kms_key_id: Option<String>,
}

impl Default for EncryptionPolicy {
    fn default() -> (p: Self)
        ensures
            !p.at_rest_encryption,
            p.kms_key_id is None,
    {
        EncryptionPolicy { at_rest_encryption: false, kms_key_id: None }
    }
}

impl EncryptionPolicy {
    /// No encryption at rest.
    pub fn disabled() -> (p: Self)
        ensures
            !p.at_rest_encryption,
            p.kms_key_id is None,
    {
        EncryptionPolicy { at_rest_encryption: false, kms_key_id: None }
    }

    /// Encryption at rest under the key `kms_key_id`.
    pub fn kms(kms_key_id: &str) -> (p: Self)
        ensures
            p.at_rest_encryption,
            p.kms_key_id matches Some(id) && id@ == kms_key_id@,
    {
        EncryptionPolicy { at_rest_encryption: true, kms_key_id: Some(kms_key_id.to_owned()) }
    }
}

/// Why a governance rule is broken.
#[derive(Debug, PartialEq, Eq)]
pub enum GovernanceError {
    MissingTenant,
    MissingResidencyRegion { tenant: String },
    MissingRegionMetadata { tenant: String },
    ResidencyViolation { tenant: String, expected_region: String, actual_region: String },
    MissingKmsKeyId,
    PolicyStorePoisoned,
}

/// Why a governance rule is broken, as mathematical values.
pub enum Breach {
    MissingTenant,
    MissingResidencyRegion(Seq<char>),
    MissingRegionMetadata(Seq<char>),
    ResidencyViolation(Seq<char>, Seq<char>, Seq<char>),
    MissingKmsKeyId,
    PolicyStorePoisoned,
}

impl View for GovernanceError {
    type V = Breach;

    open spec fn view(&self) -> Breach {
        match self {
            GovernanceError::MissingTenant => Breach::MissingTenant,
            GovernanceError::MissingResidencyRegion { tenant } => Breach::MissingResidencyRegion(
                tenant@,
            ),
            GovernanceError::MissingRegionMetadata { tenant } => Breach::MissingRegionMetadata(
                tenant@,
            ),
            GovernanceError::ResidencyViolation {
                tenant,
                expected_region,
                actual_region,
            } => Breach::ResidencyViolation(tenant@, expected_region@, actual_region@),
            GovernanceError::MissingKmsKeyId => Breach::MissingKmsKeyId,
            GovernanceError::PolicyStorePoisoned => Breach::PolicyStorePoisoned,
        }
    }
}

impl GovernanceError {
    /// The message of the error, as characters.
    pub open spec fn message_text(&self) -> Seq<char> {
        match self {
            GovernanceError::MissingTenant => "tenant is required"@,
            GovernanceError::MissingResidencyRegion { tenant } => "residency region is required for tenant "@
                + tenant@,
            GovernanceError::MissingRegionMetadata { tenant } => "region metadata is required for tenant "@
                + tenant@,
            GovernanceError::ResidencyViolation { tenant, expected_region, actual_region } => "data residency violation for tenant "@
                + tenant@ + ": expected "@ + expected_region@ + ", got "@ + actual_region@,
            GovernanceError::MissingKmsKeyId => "kms key id is required when at-rest encryption is enabled"@,
            GovernanceError::PolicyStorePoisoned => "governance policy store lock poisoned"@,
        }
    }

    /// The message of the error.
    pub fn message(&self) -> (s: String)
        ensures
            s@ == self.message_text(),
    {
        match self {
            GovernanceError::MissingTenant => "tenant is required".to_owned(),
            GovernanceError::MissingResidencyRegion { tenant } => {
                let mut s = "residency region is required for tenant ".to_owned();
                s.append(tenant.as_str());
                s
            },
            GovernanceError::MissingRegionMetadata { tenant } => {
                let mut s = "region metadata is required for tenant ".to_owned();
                s.append(tenant.as_str());
                s
            },
            GovernanceError::ResidencyViolation { tenant, expected_region, actual_region } => {
                let mut s = "data residency violation for tenant ".to_owned();
                s.append(tenant.as_str());
                s.append(": expected ");
                s.append(expected_region.as_str());
                s.append(", got ");
                s.append(actual_region.as_str());
                s
            },
            GovernanceError::MissingKmsKeyId => "kms key id is required when at-rest encryption is enabled".to_owned(),
            GovernanceError::PolicyStorePoisoned => "governance policy store lock poisoned".to_owned(),
        }
    }
}

/// The governance policy of a tenant.
#[derive(Debug, PartialEq, Eq)]
pub struct TenantGovernancePolicy {
    pub tenant: String,
    pub residency_region: String,
    pub retention_days: u32,
    pub encryption: EncryptionPolicy,
}

impl View for TenantGovernancePolicy {
    type V = TenantGovernancePolicy;

    open spec fn view(&self) -> TenantGovernancePolicy {
        *self
    }
}

impl Duplicate for TenantGovernancePolicy {
    fn duplicate(&self) -> (r: Self) {
        TenantGovernancePolicy {
            tenant: self.tenant.clone(),
            residency_region: self.residency_region.clone(),
            retention_days: self.retention_days,
            encryption: EncryptionPolicy {
                at_rest_encryption: self.encryption.at_rest_encryption,
                kms_key_id: copy_opt(&self.encryption.kms_key_id),
            },
        }
    }
}

impl Clone for TenantGovernancePolicy {
    fn clone(&self) -> (r: Self)
        ensures
            r == *self,
    {
        self.duplicate()
    }
}

/// The number of seconds of a day.
pub const DAY_SECONDS: u64 = 86400;

/// The rule that the policy `p` breaks, if it breaks one: the tenant and the
/// region must not be blank, and encryption at rest needs a key id.
pub open spec fn policy_breach(p: TenantGovernancePolicy) -> Option<Breach> {
    if is_blank(p.tenant@) {
        Some(Breach::MissingTenant)
    } else if is_blank(p.residency_region@) {
        Some(Breach::MissingResidencyRegion(trimmed(p.tenant@)))
    } else if p.encryption.at_rest_encryption && (p.encryption.kms_key_id is None || is_blank(
        p.encryption.kms_key_id->0@,
    )) {
        Some(Breach::MissingKmsKeyId)
    } else {
        None
    }
}

/// What keeps data of the region `region` out of the tenant of `p`, if
/// anything does: the region is missing or blank, or it is not the residency
/// region of the tenant.
pub open spec fn residency_breach(p: TenantGovernancePolicy, region: Option<Seq<char>>) -> Option<
    Breach,
> {
    if region is None || is_blank(region->0) {
        Some(Breach::MissingRegionMetadata(p.tenant@))
    } else if trimmed(region->0) != p.residency_region@ {
        Some(Breach::ResidencyViolation(p.tenant@, p.residency_region@, trimmed(region->0)))
    } else {
        None
    }
}

/// The time at which data that is ingested at `now` may be dropped: `now`
/// plus the retention, capped at the greatest time.
pub open spec fn retention_deadline(retention_days: u32, now: u64) -> u64 {
    if now + retention_days * 86400 > u64::MAX {
        u64::MAX
    } else {
        (now + retention_days * 86400) as u64
    }
}

impl TenantGovernancePolicy {
    /// A policy without encryption at rest.
    pub fn new(tenant: &str, residency_region: &str, retention_days: u32) -> (p: Self)
        ensures
            p.tenant@ == tenant@,
            p.residency_region@ == residency_region@,
            p.retention_days == retention_days,
            !p.encryption.at_rest_encryption,
            p.encryption.kms_key_id is None,
    {
        TenantGovernancePolicy {
            tenant: tenant.to_owned(),
            residency_region: residency_region.to_owned(),
            retention_days,
            encryption: EncryptionPolicy::disabled(),
        }
    }

    /// The policy with the encryption `encryption`, where that makes a valid
    /// policy.
    pub fn with_encryption(self, encryption: EncryptionPolicy) -> (r: Result<Self, GovernanceError>)
        ensures
            match r {
                Ok(p) => p == (TenantGovernancePolicy { encryption, ..self }) && policy_breach(p)
                    is None,
                Err(e) => policy_breach(TenantGovernancePolicy { encryption, ..self }) == Some(e@),
            },
    {
        let mut p = self;
        p.encryption = encryption;
        match p.validate() {
            Ok(()) => Ok(p),
            Err(e) => Err(e),
        }
    }

    /// Checks the policy.
    pub fn validate(&self) -> (r: Result<(), GovernanceError>)
        ensures
            match r {
                Ok(()) => policy_breach(*self) is None,
                Err(e) => policy_breach(*self) == Some(e@),
            },
    {
        if is_blank_str(self.tenant.as_str()) {
            return Err(GovernanceError::MissingTenant);
        }
        if is_blank_str(self.residency_region.as_str()) {
            return Err(
                GovernanceError::MissingResidencyRegion { tenant: trim_str(self.tenant.as_str()) },
            );
        }
        if self.encryption.at_rest_encryption {
            let blank = match &self.encryption.kms_key_id {
                Some(id) => is_blank_str(id.as_str()),
                None => true,
            };
            if blank {
                return Err(GovernanceError::MissingKmsKeyId);
            }
        }
        Ok(())
    }

    /// Checks that data of the region `region` may stay with the tenant.
    pub fn ensure_residency(&self, region: Option<&str>) -> (r: Result<(), GovernanceError>)
        ensures
            match r {
                Ok(()) => residency_breach(
                    *self,
                    match region {
                        Some(x) => Some(x@),
                        None => None,
                    },
                ) is None,
                Err(e) => residency_breach(
                    *self,
                    match region {
                        Some(x) => Some(x@),
                        None => None,
                    },
                ) == Some(e@),
            },
    {
        let actual = match region {
            Some(x) => {
                if is_blank_str(x) {
                    return Err(
                        GovernanceError::MissingRegionMetadata { tenant: self.tenant.clone() },
                    );
                }
                trim_str(x)
            },
            None => {
                return Err(GovernanceError::MissingRegionMetadata { tenant: self.tenant.clone() });
            },
        };
        if !same_text(actual.as_str(), self.residency_region.as_str()) {
            return Err(
                GovernanceError::ResidencyViolation {
                    tenant: self.tenant.clone(),
                    expected_region: self.residency_region.clone(),
                    actual_region: actual,
                },
            );
        }
        Ok(())
    }

    /// The time at which data that is ingested at `now_unix` may be dropped.
    pub fn retention_deadline_unix(&self, now_unix: u64) -> (t: u64)
        ensures
            t == retention_deadline(self.retention_days, now_unix),
    {
        let span: u64 = self.retention_days as u64 * DAY_SECONDS;
        if now_unix > u64::MAX - span {
            u64::MAX
        } else {
            now_unix + span
        }
    }

    /// The id of the key for encryption at rest, where the policy names one.
    pub fn kms_key_id(&self) -> (r: Option<&str>)
        ensures
            match r {
                Some(id) => self.encryption.kms_key_id matches Some(k) && k@ == id@,
                None => self.encryption.kms_key_id is None,
            },
    {
        match &self.encryption.kms_key_id {
            Some(id) => Some(id.as_str()),
            None => None,
        }
    }
}

/// A store of governance policies by tenant.
pub trait GovernancePolicyStore {
    /// The policies by tenant.
    spec fn policies(&self) -> Map<Seq<char>, TenantGovernancePolicy>;

    fn upsert_policy(&mut self, policy: TenantGovernancePolicy) -> (r: Result<(), GovernanceError>)
        ensures
            r is Ok ==> policy_breach(policy) is None && final(self).policies() == old(self).policies().insert(policy.tenant@, policy),
            r is Err ==> final(self).policies() == old(self).policies(),
    ;

    fn get_policy(&self, tenant: &str) -> (r: Result<Option<TenantGovernancePolicy>, GovernanceError>)
        ensures
            r matches Ok(Some(p)) ==> self.policies().contains_key(trimmed(tenant@))
                && self.policies()[trimmed(tenant@)] == p,
            r matches Ok(None) ==> !self.policies().contains_key(trimmed(tenant@)),
    ;
}

/// A policy store that holds its policies in memory.
#[derive(Debug, PartialEq, Eq)]
pub struct InMemoryGovernancePolicyStore {
    policies: SortedMap<String, TenantGovernancePolicy>,
}

impl Default for InMemoryGovernancePolicyStore {
    fn default() -> (s: Self)
        ensures
            s.policies() == Map::<Seq<char>, TenantGovernancePolicy>::empty(),
    {
        InMemoryGovernancePolicyStore { policies: SortedMap::new() }
    }
}

impl InMemoryGovernancePolicyStore {
    /// Stores a valid policy under its tenant, in place of the policy that was
    /// stored there.
    pub fn upsert_policy(&mut self, policy: TenantGovernancePolicy) -> (r: Result<(), GovernanceError>)
        ensures
            match r {
                Ok(()) => policy_breach(policy) is None && final(self).policies() == old(self).policies().insert(policy.tenant@, policy),
                Err(e) => policy_breach(policy) == Some(e@) && final(self).policies() == old(self).policies(),
            },
    {
        match policy.validate() {
            Err(e) => Err(e),
            Ok(()) => {
                self.policies.insert(policy.tenant.clone(), policy);
                Ok(())
            },
        }
    }

    /// The policy of `tenant`, if one is stored. Fails on a blank tenant.
    pub fn get_policy(&self, tenant: &str) -> (r: Result<Option<TenantGovernancePolicy>, GovernanceError>)
        ensures
            match r {
                Ok(Some(p)) => !is_blank(tenant@) && self.policies().contains_key(
                    trimmed(tenant@),
                ) && self.policies()[trimmed(tenant@)] == p,
                Ok(None) => !is_blank(tenant@) && !self.policies().contains_key(trimmed(tenant@)),
                Err(e) => is_blank(tenant@) && e == GovernanceError::MissingTenant,
            },
    {
        if is_blank_str(tenant) {
            return Err(GovernanceError::MissingTenant);
        }
        let key = trim_str(tenant);
        match self.policies.get(&key) {
            Some(p) => Ok(Some(p.duplicate())),
            None => Ok(None),
        }
    }
}

impl GovernancePolicyStore for InMemoryGovernancePolicyStore {
    closed spec fn policies(&self) -> Map<Seq<char>, TenantGovernancePolicy> {
        self.policies@
    }

    fn upsert_policy(&mut self, policy: TenantGovernancePolicy) -> (r: Result<(), GovernanceError>)
        ensures
            match r {
                Ok(()) => policy_breach(policy) is None && final(self).policies() == old(self).policies().insert(policy.tenant@, policy),
                Err(e) => policy_breach(policy) == Some(e@) && final(self).policies() == old(self).policies(),
            },
    {
        InMemoryGovernancePolicyStore::upsert_policy(self, policy)
    }

    fn get_policy(&self, tenant: &str) -> (r: Result<Option<TenantGovernancePolicy>, GovernanceError>)
        ensures
            match r {
                Ok(Some(p)) => !is_blank(tenant@) && self.policies().contains_key(
                    trimmed(tenant@),
                ) && self.policies()[trimmed(tenant@)] == p,
                Ok(None) => !is_blank(tenant@) && !self.policies().contains_key(trimmed(tenant@)),
                Err(e) => is_blank(tenant@) && e == GovernanceError::MissingTenant,
            },
    {
        InMemoryGovernancePolicyStore::get_policy(self, tenant)
    }
}

} // verus!
