//! The records exchanged with Vector: the request it sends and the table of
//! outcomes it expects back.

use vstd::hash_map::StringHashMap;
use vstd::prelude::*;
use vstd::std_specs::cmp::PartialEqSpecImpl;

verus! {

/// The request sent by Vector: a format version and the names of the secrets
/// to fetch. A name may occur more than once.
#[derive(Clone, Debug)]
pub struct SecretsToFetch {
    pub version: String,
    pub secrets: Vec<String>,
}

impl SecretsToFetch {
    /// The requested names as character sequences, in request order.
    pub open spec fn names(&self) -> Seq<Seq<char>> {
        texts(self.secrets@)
    }
}

/// What a [`FetchedSecret`] holds, as character sequences.
pub struct Outcome {
    pub value: Option<Seq<char>>,
    pub error: Option<Seq<char>>,
}

impl Outcome {
    /// Exactly one of the value and the error is present.
    pub open spec fn is_exclusive(&self) -> bool {
        self.value is Some <==> self.error is None
    }

    /// The outcome of a fetch that produced `value`.
    pub open spec fn success(value: Seq<char>) -> Outcome {
        Outcome { value: Some(value), error: None }
    }

    /// The outcome of a fetch that failed with the diagnostic `error`.
    pub open spec fn failure(error: Seq<char>) -> Outcome {
        Outcome { value: None, error: Some(error) }
    }
}

/// The outcome of fetching one secret: its value, or a diagnostic saying why
/// there is none.
#[derive(Clone, Debug)]
pub struct FetchedSecret {
    pub value: Option<String>,
    pub error: Option<String>,
}

/// The view of an optional string.
pub open spec fn text_of(text: Option<String>) -> Option<Seq<char>> {
    match text {
        Some(t) => Some(t@),
        None => None,
    }
}

impl View for FetchedSecret {
    type V = Outcome;

    open spec fn view(&self) -> Outcome {
        Outcome { value: text_of(self.value), error: text_of(self.error) }
    }
}

/// Whether two optional strings hold the same text.
fn same_text(a: &Option<String>, b: &Option<String>) -> (same: bool)
    ensures
        same == (text_of(*a) == text_of(*b)),
{
    match (a, b) {
        (Some(x), Some(y)) => *x == *y,
        (None, None) => true,
        _ => false,
    }
}

impl FetchedSecret {
    /// The outcome of a fetch that produced `value`.
    pub fn success(value: String) -> (secret: Self)
        ensures
            secret@ == Outcome::success(value@),
            secret.value == Some(value),
            secret.error.is_none(),
    {
        FetchedSecret { value: Some(value), error: None }
    }

    /// The outcome of a fetch that failed with the diagnostic `error`.
    pub fn failure(error: String) -> (secret: Self)
        ensures
            secret@ == Outcome::failure(error@),
            secret.value.is_none(),
            secret.error == Some(error),
    {
        FetchedSecret { value: None, error: Some(error) }
    }

    /// Whether exactly one of the value and the error is present.
    pub fn is_exclusive(&self) -> (exclusive: bool)
        ensures
            exclusive == self@.is_exclusive(),
    {
        self.value.is_some() != self.error.is_some()
    }
}

impl PartialEq for FetchedSecret {
    fn eq(&self, other: &Self) -> (equal: bool) {
        same_text(&self.value, &other.value) && same_text(&self.error, &other.error)
    }
}

impl PartialEqSpecImpl for FetchedSecret {
    open spec fn obeys_eq_spec() -> bool {
        true
    }

    open spec fn eq_spec(&self, other: &Self) -> bool {
        self@ == other@
    }
}

/// The texts of a list of names, in the same order.
pub open spec fn texts(names: Seq<String>) -> Seq<Seq<char>> {
    names.map_values(|name: String| name@)
}

/// `names` lists every key of `table` exactly once.
spec fn lists_keys(names: Seq<String>, table: Map<Seq<char>, FetchedSecret>) -> bool {
    &&& texts(names).no_duplicates()
    &&& texts(names).to_set() =~= table.dom()
}

/// Stores `secret` under `name`, listing the name if it is new.
fn record(
    names: &mut Vec<String>,
    table: &mut StringHashMap<FetchedSecret>,
    name: String,
    secret: FetchedSecret,
)
    requires
        lists_keys(old(names)@, old(table)@),
    ensures
        lists_keys(final(names)@, final(table)@),
        final(table)@ == old(table)@.insert(name@, secret),
        texts(final(names)@) == if old(table)@.contains_key(name@) {
            texts(old(names)@)
        } else {
            texts(old(names)@).push(name@)
        },
{
    broadcast use Seq::lemma_push_to_set_commute;

    if !table.contains_key(name.as_str()) {
        names.push(name.clone());
        assert(texts(names@) =~= texts(old(names)@).push(name@));
    }
    table.insert(name, secret);
}

/// The outcomes of a load, keyed by secret name. Each name has one outcome;
/// the names are kept in the order in which they were first inserted.
pub struct FetchedSecrets {
    names: Vec<String>,
    table: StringHashMap<FetchedSecret>,
}

impl View for FetchedSecrets {
    type V = Map<Seq<char>, Outcome>;

    closed spec fn view(&self) -> Map<Seq<char>, Outcome> {
        self.table@.map_values(|secret: FetchedSecret| secret@)
    }
}

impl FetchedSecrets {
    #[verifier::type_invariant]
    spec fn listed(&self) -> bool {
        lists_keys(self.names@, self.table@)
    }

    /// The names that have an outcome, in the order of their first insertion.
    pub closed spec fn order(&self) -> Seq<Seq<char>> {
        texts(self.names@)
    }

    /// An empty table.
    pub fn new() -> (secrets: Self)
        ensures
            secrets@ == Map::<Seq<char>, Outcome>::empty(),
            secrets.order() == Seq::<Seq<char>>::empty(),
    {
        let secrets = FetchedSecrets { names: Vec::new(), table: StringHashMap::new() };
        assert(secrets@ =~= Map::<Seq<char>, Outcome>::empty());
        assert(secrets.order() =~= Seq::<Seq<char>>::empty());
        secrets
    }

    /// Stores `secret` as the outcome for `name`, replacing an earlier
    /// outcome for the same name.
    pub fn insert(&mut self, name: String, secret: FetchedSecret)
        ensures
            final(self)@ == old(self)@.insert(name@, secret@),
            final(self).order() == if old(self)@.contains_key(name@) {
                old(self).order()
            } else {
                old(self).order().push(name@)
            },
    {
        let mut taken = FetchedSecrets::new();
        core::mem::swap(self, &mut taken);
        proof {
            use_type_invariant(&taken);
        }
        let FetchedSecrets { mut names, mut table } = taken;
        record(&mut names, &mut table, name, secret);
        *self = FetchedSecrets { names, table };
        assert(self@ =~= old(self)@.insert(name@, secret@));
    }

    /// The outcome stored for `name`, if there is one.
    pub fn get(&self, name: &str) -> (found: Option<&FetchedSecret>)
        ensures
            match found {
                Some(secret) => self@.contains_key(name@) && secret@ == self@[name@],
                None => !self@.contains_key(name@),
            },
    {
        self.table.get(name)
    }

    /// The number of names that have an outcome.
    pub fn len(&self) -> (count: usize)
        ensures
            count == self@.len(),
            count == self.order().len(),
            self@.dom().finite(),
    {
        proof {
            use_type_invariant(self);
            broadcast use vstd::seq_lib::seq_to_set_is_finite;
            self.order().unique_seq_to_set();
            assert(self@.dom() =~= self.table@.dom());
        }
        self.names.len()
    }

    /// The names that have an outcome, each once, in the order of their
    /// first insertion.
    pub fn names(&self) -> (names: &Vec<String>)
        ensures
            texts(names@) == self.order(),
            self.order().no_duplicates(),
            self.order().to_set() == self@.dom(),
    {
        proof {
            use_type_invariant(self);
            assert(self@.dom() =~= self.table@.dom());
        }
        &self.names
    }
}

impl Default for FetchedSecrets {
    fn default() -> (secrets: Self)
        ensures
            secrets@ == Map::<Seq<char>, Outcome>::empty(),
            secrets.order() == Seq::<Seq<char>>::empty(),
    {
        FetchedSecrets::new()
    }
}

impl PartialEq for FetchedSecrets {
    /// Two tables are equal when they hold the same outcome for the same
    /// names, in whatever order the names were inserted.
    fn eq(&self, other: &Self) -> (equal: bool) {
        proof {
            use_type_invariant(self);
            use_type_invariant(other);
            broadcast use vstd::seq_lib::seq_to_set_is_finite;
            self.order().unique_seq_to_set();
            other.order().unique_seq_to_set();
            assert(self@.dom() =~= self.table@.dom());
            assert(other@.dom() =~= other.table@.dom());
        }
        if self.names.len() != other.names.len() {
            return false;
        }
        let mut i: usize = 0;
        while i < self.names.len()
            invariant
                i <= self.names.len(),
                self.order().to_set() == self@.dom(),
                forall|j: int|
                    0 <= j < i ==> other@.contains_key(#[trigger] self.order()[j])
                        && other@[self.order()[j]] == self@[self.order()[j]],
            decreases self.names.len() - i,
        {
            let name = &self.names[i];
            assert(self.order()[i as int] == name@);
            assert(self.order().to_set().contains(self.order()[i as int]));
            match (self.table.get(name.as_str()), other.table.get(name.as_str())) {
                (Some(mine), Some(theirs)) => {
                    if !(*mine == *theirs) {
                        return false;
                    }
                },
                _ => {
                    return false;
                },
            }
            i += 1;
        }
        proof {
            assert forall|name: Seq<char>| self@.dom().contains(name) implies other@.dom().contains(
                name,
            ) && other@[name] == self@[name] by {
                let j = choose|j: int| 0 <= j < self.order().len() && self.order()[j] == name;
                assert(other@.contains_key(self.order()[j]));
            }
            vstd::set_lib::lemma_subset_equality(self@.dom(), other@.dom());
            assert(self@ =~= other@);
        }
        true
    }
}

impl PartialEqSpecImpl for FetchedSecrets {
    open spec fn obeys_eq_spec() -> bool {
        true
    }

    open spec fn eq_spec(&self, other: &Self) -> bool {
        self@ == other@
    }
}

} // verus!
