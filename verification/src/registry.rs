//! The registry of extraction models: versions, the active version of each
//! model, and rollback.

use vstd::prelude::*;
use crate::engine::copy_opt;
use crate::extract::{before_first, text_before};
use crate::ordered::Duplicate;
use crate::sorted_map::SortedMap;
use crate::text::{chars_of, slice_chars, string_of, texts_of};

verus! {

/// Why a registry operation failed.
#[derive(Debug, PartialEq, Eq)]
pub enum RegistryError {
    ModelNotFound(String),
    VersionNotFound { model_id: String, version: String },
    VersionAlreadyExists { model_id: String, version: String },
    NoRollbackTarget(String),
}

/// Why a registry operation failed, as mathematical values.
pub enum RegistryFault {
    ModelNotFound(Seq<char>),
    VersionNotFound(Seq<char>, Seq<char>),
    VersionAlreadyExists(Seq<char>, Seq<char>),
    NoRollbackTarget(Seq<char>),
}

impl View for RegistryError {
    type V = RegistryFault;

    open spec fn view(&self) -> RegistryFault {
        match self {
            RegistryError::ModelNotFound(m) => RegistryFault::ModelNotFound(m@),
            RegistryError::VersionNotFound { model_id, version } => RegistryFault::VersionNotFound(
                model_id@,
                version@,
            ),
            RegistryError::VersionAlreadyExists {
                model_id,
                version,
            } => RegistryFault::VersionAlreadyExists(model_id@, version@),
            RegistryError::NoRollbackTarget(m) => RegistryFault::NoRollbackTarget(m@),
        }
    }
}

impl RegistryError {
    /// The message of the error, as characters.
    pub open spec fn message_text(&self) -> Seq<char> {
        match self {
            RegistryError::ModelNotFound(m) => "model not found: "@ + m@,
            RegistryError::VersionNotFound { model_id, version } => "version not found for model "@
                + model_id@ + ": "@ + version@,
            RegistryError::VersionAlreadyExists { model_id, version } => "model version already exists for model "@
                + model_id@ + ": "@ + version@,
            RegistryError::NoRollbackTarget(m) => "rollback target is not available for model: "@
                + m@,
        }
    }

    /// The message of the error.
    pub fn message(&self) -> (s: String)
        ensures
            s@ == self.message_text(),
    {
        match self {
            RegistryError::ModelNotFound(m) => {
                let mut s = "model not found: ".to_owned();
                s.append(m.as_str());
                s
            },
            RegistryError::VersionNotFound { model_id, version } => {
                let mut s = "version not found for model ".to_owned();
                s.append(model_id.as_str());
                s.append(": ");
                s.append(version.as_str());
                s
            },
            RegistryError::VersionAlreadyExists { model_id, version } => {
                let mut s = "model version already exists for model ".to_owned();
                s.append(model_id.as_str());
                s.append(": ");
                s.append(version.as_str());
                s
            },
            RegistryError::NoRollbackTarget(m) => {
                let mut s = "rollback target is not available for model: ".to_owned();
                s.append(m.as_str());
                s
            },
        }
    }
}

/// A model at one version, with its extractor.
#[derive(Debug, PartialEq, Eq)]
pub struct ResolvedModel<E> {
    pub model_id: String,
    pub version: String,
    pub extractor: E,
}

/// The versions of one model, as mathematical values.
pub struct FamilyView<V> {
    pub versions: Map<Seq<char>, V>,
    pub active: Option<Seq<char>>,
    pub history: Seq<Seq<char>>,
}

/// The versions of one model: the extractors by version, the active version
/// and the versions that were activated, in order.
#[derive(Debug, PartialEq, Eq)]
pub struct ModelFamily<E: Duplicate> {
    versions: SortedMap<String, E>,
    active_version: Option<String>,
    activation_history: Vec<String>,
}

impl<E: Duplicate> View for ModelFamily<E> {
    type V = FamilyView<E::V>;

    closed spec fn view(&self) -> FamilyView<E::V> {
        FamilyView {
            versions: self.versions@,
            active: match self.active_version {
                Some(v) => Some(v@),
                None => None,
            },
            history: texts_of(self.activation_history@),
        }
    }
}

impl<E: Duplicate> Duplicate for ModelFamily<E> {
    fn duplicate(&self) -> (r: Self) {
        let mut history: Vec<String> = Vec::new();
        let mut i: usize = 0;
        while i < self.activation_history.len()
            invariant
                i <= self.activation_history.len(),
                history@.len() == i,
                forall|j: int| 0 <= j < i ==> (#[trigger] history@[j])@ == self.activation_history@[j]@,
            decreases self.activation_history.len() - i,
        {
            history.push(self.activation_history[i].clone());
            i += 1;
        }
        assert(texts_of(history@) =~= texts_of(self.activation_history@));
        ModelFamily {
            versions: self.versions.duplicate(),
            active_version: copy_opt(&self.active_version),
            activation_history: history,
        }
    }
}

/// The model and the version that the reference `model_ref` names: what
/// stands before and behind its first `@`, where both are there; else the
/// whole reference names the model.
pub open spec fn model_ref_parts(model_ref: Seq<char>) -> (Seq<char>, Option<Seq<char>>) {
    let id = before_first(model_ref, '@');
    if id.len() > 0 && id.len() + 1 < model_ref.len() {
        (id, Some(model_ref.skip(id.len() as int + 1)))
    } else {
        (model_ref, None)
    }
}

/// Splits a model reference `name` or `name@version`.
pub fn parse_model_ref(model_ref: &str) -> (r: (String, Option<String>))
    ensures
        r.0@ == model_ref_parts(model_ref@).0,
        match r.1 {
            Some(v) => model_ref_parts(model_ref@).1 == Some(v@),
            None => model_ref_parts(model_ref@).1 is None,
        },
{
    let id = text_before(model_ref, '@');
    let cs = chars_of(model_ref);
    let n = chars_of(id.as_str()).len();
    if n > 0 && n < cs.len() && n + 1 < cs.len() {
        let version = slice_chars(&cs, n + 1, cs.len());
        assert(version@ =~= cs@.skip(n + 1));
        (id, Some(string_of(&version)))
    } else {
        (model_ref.to_owned(), None)
    }
}

/// The versions of the model `id` in the registry `reg`; none where the model
/// is not registered.
pub open spec fn family_of<V>(reg: Map<Seq<char>, FamilyView<V>>, id: Seq<char>) -> FamilyView<V> {
    if reg.contains_key(id) {
        reg[id]
    } else {
        empty_family::<V>()
    }
}

/// The registry `reg` with the version `version` of the model `id` added.
pub open spec fn registered<V>(
    reg: Map<Seq<char>, FamilyView<V>>,
    id: Seq<char>,
    version: Seq<char>,
    e: V,
) -> Map<Seq<char>, FamilyView<V>> {
    reg.insert(id, family_with(family_of(reg, id), version, e))
}

/// What a model reference resolves to in the registry `reg`: the name and the
/// version of the model, or the fault. A reference without a version resolves
/// to the active version of the model.
pub open spec fn resolution<V>(reg: Map<Seq<char>, FamilyView<V>>, model_ref: Seq<char>) -> Result<
    (Seq<char>, Seq<char>),
    RegistryFault,
> {
    let (id, pinned) = model_ref_parts(model_ref);
    if !reg.contains_key(id) {
        Err(RegistryFault::ModelNotFound(id))
    } else {
        let version = match pinned {
            Some(v) => Some(v),
            None => reg[id].active,
        };
        match version {
            None => Err(RegistryFault::ModelNotFound(id)),
            Some(v) => if reg[id].versions.contains_key(v) {
                Ok((id, v))
            } else {
                Err(RegistryFault::VersionNotFound(id, v))
            },
        }
    }
}

/// Whether `r` is what the reference `model_ref` resolves to in `reg`.
pub open spec fn is_resolution<V, E: View<V = V>>(
    reg: Map<Seq<char>, FamilyView<V>>,
    model_ref: Seq<char>,
    r: Result<ResolvedModel<E>, RegistryError>,
) -> bool {
    match resolution(reg, model_ref) {
        Ok((id, v)) => r matches Ok(m) && m.model_id@ == id && m.version@ == v && m.extractor@
            == reg[id].versions[v],
        Err(fault) => r matches Err(e) && e@ == fault,
    }
}

/// The registry of extraction models.
#[derive(Debug, PartialEq, Eq)]
pub struct ModelRegistry<E: Duplicate> {
    families: SortedMap<String, ModelFamily<E>>,
}

impl<E: Duplicate> View for ModelRegistry<E> {
    type V = Map<Seq<char>, FamilyView<E::V>>;

    closed spec fn view(&self) -> Map<Seq<char>, FamilyView<E::V>> {
        self.families@
    }
}

/// The family `f` after `version` was registered with the extractor `e`: the
/// first version of a model becomes its active version.
pub open spec fn family_with<V>(f: FamilyView<V>, version: Seq<char>, e: V) -> FamilyView<V> {
    FamilyView {
        versions: f.versions.insert(version, e),
        active: if f.active is None {
            Some(version)
        } else {
            f.active
        },
        history: if f.active is None {
            f.history.push(version)
        } else {
            f.history
        },
    }
}

/// The family without versions.
pub open spec fn empty_family<V>() -> FamilyView<V> {
    FamilyView { versions: Map::empty(), active: None, history: Seq::empty() }
}

/// The family `f` after `version` was activated: a version that is active
/// already stays so without a new entry in the history.
pub open spec fn family_activated<V>(f: FamilyView<V>, version: Seq<char>) -> FamilyView<V> {
    if f.active == Some(version) {
        f
    } else {
        FamilyView { active: Some(version), history: f.history.push(version), ..f }
    }
}

impl<E: Duplicate> ModelRegistry<E> {
    /// The registry without models.
    pub fn new() -> (r: Self)
        ensures
            r@ == Map::<Seq<char>, FamilyView<E::V>>::empty(),
    {
        ModelRegistry { families: SortedMap::new() }
    }

    /// Registers `version` of the model `model_id` with its extractor. The
    /// first version of a model becomes its active version. Fails where the
    /// version is registered already.
    pub fn register(&mut self, model_id: &str, version: &str, extractor: E) -> (r: Result<
        (),
        RegistryError,
    >)
        ensures
            ({
                let before = if old(self)@.contains_key(model_id@) {
                    old(self)@[model_id@]
                } else {
                    empty_family::<E::V>()
                };
                match r {
                    Ok(()) => !before.versions.contains_key(version@) && final(self)@ == old(self)@.insert(model_id@, family_with(before, version@, extractor@)),
                    Err(e) => before.versions.contains_key(version@) && e@
                        == RegistryFault::VersionAlreadyExists(model_id@, version@) && final(self)@
                        == old(self)@,
                }
            }),
    {
        let key = model_id.to_owned();
        let version_key = version.to_owned();
        let ghost before = if self@.contains_key(model_id@) {
            self@[model_id@]
        } else {
            empty_family::<E::V>()
        };
        let mut family = match self.families.get(&key) {
            Some(f) => f.duplicate(),
            None => ModelFamily {
                versions: SortedMap::new(),
                active_version: None,
                activation_history: Vec::new(),
            },
        };
        proof {
            assert(family@.versions =~= before.versions);
            assert(family@.history =~= before.history);
            assert(family@.active == before.active);
        }
        let ghost ev = extractor@;
        if family.versions.contains_key(&version_key) {
            return Err(
                RegistryError::VersionAlreadyExists {
                    model_id: key,
                    version: version_key,
                },
            );
        }
        family.versions.insert(version.to_owned(), extractor);
        if family.active_version.is_none() {
            family.active_version = Some(version.to_owned());
            let ghost before = texts_of(family.activation_history@);
            family.activation_history.push(version_key);
            assert(texts_of(family.activation_history@) =~= before.push(version@));
        }
        proof {
            let fv = family_with(before, version@, ev);
            assert(family@.versions =~= fv.versions);
            assert(family@.history =~= fv.history);
            assert(family@.active == fv.active);
        }
        self.families.insert(key, family);
        Ok(())
    }

    /// Makes `version` the active version of the model `model_id`.
    pub fn activate(&mut self, model_id: &str, version: &str) -> (r: Result<
        ResolvedModel<E>,
        RegistryError,
    >)
        ensures
            match r {
                Ok(m) => old(self)@.contains_key(model_id@) && old(self)@[model_id@].versions.contains_key(version@) && m.model_id@ == model_id@
                    && m.version@ == version@ && m.extractor@ == old(self)@[model_id@].versions[version@] && final(self)@ == old(self)@.insert(
                    model_id@,
                    family_activated(old(self)@[model_id@], version@),
                ),
                Err(e) => final(self)@ == old(self)@ && (if !old(self)@.contains_key(model_id@) {
                    e@ == RegistryFault::ModelNotFound(model_id@)
                } else {
                    !old(self)@[model_id@].versions.contains_key(version@) && e@
                        == RegistryFault::VersionNotFound(model_id@, version@)
                }),
            },
    {
        let key = model_id.to_owned();
        let version_key = version.to_owned();
        let mut family = match self.families.get(&key) {
            Some(f) => f.duplicate(),
            None => {
                return Err(RegistryError::ModelNotFound(key));
            },
        };
        let extractor = match family.versions.get(&version_key) {
            Some(e) => e.duplicate(),
            None => {
                return Err(
                    RegistryError::VersionNotFound {
                        model_id: key,
                        version: version_key,
                    },
                );
            },
        };
        let is_current = match &family.active_version {
            Some(v) => crate::text::same_text(v.as_str(), version),
            None => false,
        };
        if !is_current {
            family.active_version = Some(version.to_owned());
            let ghost before = texts_of(family.activation_history@);
            family.activation_history.push(version.to_owned());
            assert(texts_of(family.activation_history@) =~= before.push(version@));
        }
        self.families.insert(model_id.to_owned(), family);
        proof {
            if is_current {
                assert(final(self)@ =~= old(self)@.insert(
                    model_id@,
                    family_activated(old(self)@[model_id@], version@),
                ));
            }
        }
        Ok(ResolvedModel { model_id: key, version: version_key, extractor })
    }

    /// Resolves a model reference `name` or `name@version`: the named
    /// version, or the active version of the model where none is named.
    pub fn resolve(&self, model_ref: &str) -> (r: Result<ResolvedModel<E>, RegistryError>)
        ensures
            is_resolution(self@, model_ref@, r),
            ({
                let (id, pinned) = model_ref_parts(model_ref@);
                match r {
                    Ok(m) => self@.contains_key(id) && m.model_id@ == id && (match pinned {
                        Some(v) => m.version@ == v,
                        None => self@[id].active == Some(m.version@),
                    }) && self@[id].versions.contains_key(m.version@) && m.extractor@
                        == self@[id].versions[m.version@],
                    Err(e) => if !self@.contains_key(id) {
                        e@ == RegistryFault::ModelNotFound(id)
                    } else {
                        match pinned {
                            Some(v) => !self@[id].versions.contains_key(v) && e@
                                == RegistryFault::VersionNotFound(id, v),
                            None => match self@[id].active {
                                None => e@ == RegistryFault::ModelNotFound(id),
                                Some(v) => !self@[id].versions.contains_key(v) && e@
                                    == RegistryFault::VersionNotFound(id, v),
                            },
                        }
                    },
                }
            }),
    {
        let (model_id, pinned_version) = parse_model_ref(model_ref);
        let family = match self.families.get(&model_id) {
            Some(f) => f,
            None => {
                return Err(RegistryError::ModelNotFound(model_id));
            },
        };
        let version = match pinned_version {
            Some(v) => v,
            None => match &family.active_version {
                Some(v) => v.clone(),
                None => {
                    return Err(RegistryError::ModelNotFound(model_id));
                },
            },
        };
        match family.versions.get(&version) {
            Some(e) => Ok(ResolvedModel { model_id, version, extractor: e.duplicate() }),
            None => Err(RegistryError::VersionNotFound { model_id, version }),
        }
    }

    /// Goes back to the version that was active before the active one.
    pub fn rollback(&mut self, model_id: &str) -> (r: Result<ResolvedModel<E>, RegistryError>)
        ensures
            match r {
                Ok(m) => {
                    let f = old(self)@[model_id@];
                    &&& old(self)@.contains_key(model_id@)
                    &&& f.history.len() >= 2
                    &&& m.model_id@ == model_id@
                    &&& m.version@ == f.history[f.history.len() - 2]
                    &&& f.versions.contains_key(m.version@)
                    &&& m.extractor@ == f.versions[m.version@]
                    &&& final(self)@ == old(self)@.insert(
                        model_id@,
                        FamilyView {
                            active: Some(m.version@),
                            history: f.history.drop_last(),
                            ..f
                        },
                    )
                },
                Err(e) => if !old(self)@.contains_key(model_id@) {
                    e@ == RegistryFault::ModelNotFound(model_id@) && final(self)@ == old(self)@
                } else if old(self)@[model_id@].history.len() < 2 {
                    e@ == RegistryFault::NoRollbackTarget(model_id@) && final(self)@ == old(self)@
                } else {
                    let f = old(self)@[model_id@];
                    let previous = f.history[f.history.len() - 2];
                    &&& !f.versions.contains_key(previous)
                    &&& e@ == RegistryFault::VersionNotFound(model_id@, previous)
                    &&& final(self)@ == old(self)@.insert(
                        model_id@,
                        FamilyView { active: Some(previous), history: f.history.drop_last(), ..f },
                    )
                },
            },
    {
        let key = model_id.to_owned();
        let mut family = match self.families.get(&key) {
            Some(f) => f.duplicate(),
            None => {
                return Err(RegistryError::ModelNotFound(key));
            },
        };
        if family.activation_history.len() < 2 {
            return Err(RegistryError::NoRollbackTarget(key));
        }
        let ghost before = texts_of(family.activation_history@);
        family.activation_history.pop();
        assert(texts_of(family.activation_history@) =~= before.drop_last());
        let previous = family.activation_history[family.activation_history.len() - 1].clone();
        assert(previous@ == before[before.len() - 2]) by {
            assert(texts_of(family.activation_history@)[before.len() - 2] == previous@);
        }
        family.active_version = Some(previous.clone());
        let found = match family.versions.get(&previous) {
            Some(e) => Some(e.duplicate()),
            None => None,
        };
        self.families.insert(model_id.to_owned(), family);
        match found {
            Some(extractor) => Ok(ResolvedModel { model_id: key, version: previous, extractor }),
            None => Err(RegistryError::VersionNotFound { model_id: key, version: previous }),
        }
    }
}

} // verus!
