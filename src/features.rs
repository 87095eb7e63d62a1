//! The feature registry behind `DOMImplementation::has_feature`.
use vstd::prelude::*;

verus! {

/// What `str::to_lowercase` returns for a string.
pub uninterp spec fn lower_of(s: Seq<char>) -> Seq<char>;

/// Relies on `str::to_lowercase`: the lower-case form of `s`, which depends on
/// the characters of `s` alone.
#[verifier::external_body]
fn lowercase(s: &str) -> (r: String)
    ensures
        r@ == lower_of(s@),
{
    s.to_lowercase()
}

/// The view of an optional string.
pub open spec fn opt_view(o: Option<&str>) -> Option<Seq<char>> {
    match o {
        Some(s) => Some(s@),
        None => None,
    }
}

/// The view of an optional owned string.
pub open spec fn opt_string_view(o: Option<String>) -> Option<Seq<char>> {
    match o {
        Some(s) => Some(s@),
        None => None,
    }
}

/// A version is "unspecified" when it is absent or empty.
pub open spec fn norm_version(v: Option<Seq<char>>) -> Option<Seq<char>> {
    match v {
        Some(s) => if s.len() == 0 { None } else { Some(s) },
        None => None,
    }
}

/// The registry key of a feature name and version.
pub open spec fn feature_key(feature: Seq<char>, version: Option<Seq<char>>) -> (Seq<char>, Option<Seq<char>>) {
    (lower_of(feature), norm_version(version))
}

/// Compares two optional strings by content.
pub fn opt_string_eq(a: &Option<String>, b: &Option<String>) -> (r: bool)
    ensures
        r == (opt_string_view(*a) == opt_string_view(*b)),
{
    match (a, b) {
        (Some(x), Some(y)) => x.eq(y),
        (None, None) => true,
        _ => false,
    }
}

/// Copies an optional string.
pub fn opt_string_clone(a: &Option<String>) -> (r: Option<String>)
    ensures
        opt_string_view(r) == opt_string_view(*a),
{
    match a {
        Some(x) => Some(x.clone()),
        None => None,
    }
}

fn normalize_version(version: Option<&str>) -> (r: Option<String>)
    ensures
        opt_string_view(r) == norm_version(opt_view(version)),
{
    match version {
        Some(v) => {
            if v.is_empty() {
                None
            } else {
                Some(v.to_owned())
            }
        },
        None => None,
    }
}

/// A set of supported (feature, version) pairs; names are kept in lower case
/// and an absent version stands for every version.
pub struct Features {
    features: Vec<(String, Option<String>)>,
}

impl Features {
    pub closed spec fn entry(self, i: int) -> (Seq<char>, Option<Seq<char>>) {
        (self.features@[i].0@, opt_string_view(self.features@[i].1))
    }

    /// No pair is registered twice.
    pub closed spec fn wf(self) -> bool {
        forall|i: int, j: int|
            0 <= i < j < self.features@.len() ==> self.entry(i) != self.entry(j)
    }

    /// The registered pairs.
    pub closed spec fn view(self) -> Set<(Seq<char>, Option<Seq<char>>)> {
        Set::new(|k: (Seq<char>, Option<Seq<char>>)| exists|i: int| 0 <= i < self.features@.len() && self.entry(i) == k)
    }

    /// Whether a query for `feature` at `version` is satisfied: the exact pair is
    /// registered, or a concrete version is asked and the feature is registered
    /// without one.
    pub open spec fn spec_has_feature(self, feature: Seq<char>, version: Option<Seq<char>>) -> bool {
        let k = feature_key(feature, version);
        self@.contains(k) || (k.1.is_some() && self@.contains((k.0, None)))
    }

    pub fn new() -> (r: Features)
        ensures
            r.wf(),
            r@ == Set::<(Seq<char>, Option<Seq<char>>)>::empty(),
    {
        let r = Features { features: Vec::new() };
        assert(r@ =~= Set::<(Seq<char>, Option<Seq<char>>)>::empty());
        r
    }

    fn find(&self, name: &String, version: &Option<String>) -> (r: Option<usize>)
        ensures
            match r {
                Some(i) => i < self.features@.len() && self.entry(i as int) == (name@, opt_string_view(*version)),
                None => !self@.contains((name@, opt_string_view(*version))),
            },
    {
        let mut i: usize = 0;
        while i < self.features.len()
            invariant
                i <= self.features@.len(),
                forall|j: int| 0 <= j < i ==> self.entry(j) != (name@, opt_string_view(*version)),
            decreases self.features@.len() - i,
        {
            if self.features[i].0 == *name && opt_string_eq(&self.features[i].1, version) {
                return Some(i);
            }
            i += 1;
        }
        None
    }

    /// Whether a query for the already lower-cased name `lowered` at
    /// `version` is satisfied: the exact pair is registered, or a concrete
    /// version is asked and `lowered` is registered without one.
    pub fn has_lowered_feature(&self, lowered: &str, version: Option<&str>) -> (r: bool)
        ensures
            r == ({
                let v = norm_version(opt_view(version));
                self@.contains((lowered@, v)) || (v.is_some() && self@.contains((lowered@, None)))
            }),
    {
        let feature = lowered.to_owned();
        let version = normalize_version(version);
        if self.find(&feature, &version).is_some() {
            return true;
        }
        if version.is_some() {
            self.find(&feature, &None).is_some()
        } else {
            false
        }
    }

    /// Whether `feature` (compared case-insensitively) is supported at `version`.
    pub fn has_feature(&self, feature: &str, version: Option<&str>) -> (r: bool)
        ensures
            r == self.spec_has_feature(feature@, opt_view(version)),
    {
        let lowered = lowercase(feature);
        self.has_lowered_feature(lowered.as_str(), version)
    }

    /// Registers (`enabled`) or withdraws the pair for `feature` and `version`.
    pub fn set_feature(&mut self, feature: &str, version: Option<&str>, enabled: bool)
        requires
            old(self).wf(),
        ensures
            final(self).wf(),
            enabled ==> final(self)@ == old(self)@.insert(feature_key(feature@, opt_view(version))),
            !enabled ==> final(self)@ == old(self)@.remove(feature_key(feature@, opt_view(version))),
    {
        let lowered = lowercase(feature);
        self.set_lowered_feature(lowered.as_str(), version, enabled)
    }

    /// Registers (`enabled`) or withdraws the pair of the already lower-cased
    /// name `lowered` and `version`.
    pub fn set_lowered_feature(&mut self, lowered: &str, version: Option<&str>, enabled: bool)
        requires
            old(self).wf(),
        ensures
            final(self).wf(),
            enabled ==> final(self)@ == old(self)@.insert((lowered@, norm_version(opt_view(version)))),
            !enabled ==> final(self)@ == old(self)@.remove((lowered@, norm_version(opt_view(version)))),
    {
        let feature = lowered.to_owned();
        let version = normalize_version(version);
        let ghost k = (feature@, opt_string_view(version));
        match self.find(&feature, &version) {
            Some(i) => {
                if !enabled {
                    let ghost prev = *self;
                    self.features.remove(i);
                    assert forall|j: int| 0 <= j < self.features@.len() implies self.entry(j) == prev.entry(
                        if j < i { j } else { j + 1 },
                    ) by {}
                    assert forall|a: int, b: int| 0 <= a < b < self.features@.len() implies self.entry(a) != self.entry(b) by {
                        let aa = if a < i { a } else { a + 1 };
                        let bb = if b < i { b } else { b + 1 };
                        assert(self.entry(a) == prev.entry(aa));
                        assert(self.entry(b) == prev.entry(bb));
                    }
                    assert(self@ =~= prev@.remove(k)) by {
                        assert forall|x| self@.contains(x) implies prev@.remove(k).contains(x) by {
                            let j = choose|j: int| 0 <= j < self.features@.len() && self.entry(j) == x;
                            let jj = if j < i { j } else { j + 1 };
                            assert(prev.entry(jj) == x);
                        }
                        assert forall|x| prev@.remove(k).contains(x) implies self@.contains(x) by {
                            let j = choose|j: int| 0 <= j < prev.features@.len() && prev.entry(j) == x;
                            assert(j != i);
                            let jj = if j < i { j } else { j - 1 };
                            assert(self.entry(jj) == x);
                        }
                    }
                } else {
                    assert(self@ =~= self@.insert(k));
                }
            },
            None => {
                if enabled {
                    let ghost prev = *self;
                    self.features.push((feature, version));
                    assert(self.entry(prev.features@.len() as int) == k);
                    assert forall|j: int| 0 <= j < prev.features@.len() implies self.entry(j) == prev.entry(j) by {}
                    assert forall|j: int| 0 <= j < prev.features@.len() implies prev.entry(j) != k by {
                        if prev.entry(j) == k {
                            assert(prev@.contains(k));
                        }
                    }
                    assert forall|a: int, b: int| 0 <= a < b < self.features@.len() implies self.entry(a) != self.entry(b) by {
                        if b < prev.features@.len() {
                            assert(self.entry(a) == prev.entry(a));
                            assert(self.entry(b) == prev.entry(b));
                        } else {
                            assert(self.entry(a) == prev.entry(a));
                        }
                    }
                    assert(self@ =~= prev@.insert(k)) by {
                        assert forall|x| self@.contains(x) implies prev@.insert(k).contains(x) by {
                            let j = choose|j: int| 0 <= j < self.features@.len() && self.entry(j) == x;
                            if j < prev.features@.len() {
                                assert(prev.entry(j) == x);
                            }
                        }
                        assert forall|x| prev@.insert(k).contains(x) implies self@.contains(x) by {
                            if x != k {
                                let j = choose|j: int| 0 <= j < prev.features@.len() && prev.entry(j) == x;
                                assert(self.entry(j) == x);
                            }
                        }
                    }
                } else {
                    assert(self@ =~= self@.remove(k));
                }
            },
        }
    }
}

/// A registration without a version satisfies every query for that feature,
/// whatever version is asked and however the name's case is written.
pub proof fn lemma_unversioned_feature_matches_any_version(
    before: Features,
    after: Features,
    name: Seq<char>,
    query: Seq<char>,
    version: Option<Seq<char>>,
)
    requires
        after@ == before@.insert(feature_key(name, None)),
        lower_of(query) == lower_of(name),
    ensures
        after.spec_has_feature(query, version),
{
    let k = feature_key(query, version);
    assert(after@.contains((lower_of(name), None)));
    if k.1.is_none() {
        assert(k == (lower_of(name), None::<Seq<char>>));
    }
}

/// Withdrawing a pair leaves the other registrations as they were.
pub proof fn lemma_withdraw_keeps_others(
    before: Features,
    after: Features,
    name: Seq<char>,
    version: Option<Seq<char>>,
    other: (Seq<char>, Option<Seq<char>>),
)
    requires
        after@ == before@.remove(feature_key(name, version)),
        other != feature_key(name, version),
    ensures
        after@.contains(other) == before@.contains(other),
{
}

} // verus!
