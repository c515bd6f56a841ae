//! The loader for AWS Systems Manager Parameter Store.

use crate::aws::loader::{
    last_position, lemma_merged_entry, lemma_merged_is_complete, merge, merged, outcomes_of,
    LoadSecrets,
};
use crate::vector::{FetchedSecret, FetchedSecrets, Outcome, SecretsToFetch};
use vstd::prelude::*;
use vstd::string::StringExecFns;

verus! {

/// The capability of fetching one parameter from Parameter Store. The
/// outcome says what became of the fetch: it holds the value or a
/// diagnostic, never both and never neither.
pub trait SsmFetchSecret {
    /// Whether the client may answer a fetch of `name` with `outcome`. A
    /// client that says nothing of itself admits every answer.
    open spec fn answers(&self, name: Seq<char>, with_decryption: bool, outcome: Outcome) -> bool {
        true
    }

    fn fetch_secret(&self, name: String, with_decryption: bool) -> (secret: FetchedSecret)
        ensures
            secret@.is_exclusive(),
            self.answers(name@, with_decryption, secret@),
    ;
}

/// A parameter as Parameter Store returns it; its value may be missing.
pub struct Parameter {
    pub value: Option<String>,
}

/// What came back from one `GetParameter` call.
pub enum GetParameterReply {
    /// The call succeeded; the output may lack the parameter.
    Output { parameter: Option<Parameter> },
    /// The service rejected the call; `detail` is the service's own account.
    ServiceError { detail: String },
    /// The call failed before the service answered; `message` is the
    /// error's text.
    OtherError { message: String },
}

impl GetParameterReply {
    /// The outcome that a reply amounts to.
    pub open spec fn outcome(self) -> Outcome {
        match self {
            GetParameterReply::Output { parameter: Some(parameter) } => match parameter.value {
                Some(value) => Outcome::success(value@),
                None => Outcome::failure("parameter value not found"@),
            },
            GetParameterReply::Output { parameter: None } => Outcome::failure(
                "parameter not found"@,
            ),
            GetParameterReply::ServiceError { detail } => Outcome::failure(
                "service error: "@ + detail@,
            ),
            GetParameterReply::OtherError { message } => Outcome::failure(message@),
        }
    }

    /// Turns a reply into the outcome of the fetch: the parameter's value
    /// if the reply carries one, else a diagnostic.
    pub fn into_fetched_secret(self) -> (secret: FetchedSecret)
        ensures
            secret@ == self.outcome(),
            secret@.is_exclusive(),
    {
        match self {
            GetParameterReply::Output { parameter } => match parameter {
                Some(parameter) => match parameter.value {
                    Some(value) => FetchedSecret::success(value),
                    None => FetchedSecret::failure(String::from_str("parameter value not found")),
                },
                None => FetchedSecret::failure(String::from_str("parameter not found")),
            },
            GetParameterReply::ServiceError { detail } => FetchedSecret::failure(
                String::from_str("service error: ").concat(detail.as_str()),
            ),
            GetParameterReply::OtherError { message } => FetchedSecret::failure(message),
        }
    }
}

/// Loads secrets from Parameter Store through a client.
pub struct SsmSecretsLoader<C: SsmFetchSecret> {
    client: C,
    with_decryption: bool,
}

impl<C: SsmFetchSecret + Send + Sync + 'static> SsmSecretsLoader<C> {
    /// Whether the loader asks the client to decrypt secure parameters.
    pub closed spec fn decrypts(&self) -> bool {
        self.with_decryption
    }

    /// A loader that fetches through `client`, asking for decryption if
    /// `with_decryption` is set.
    pub fn new(client: C, with_decryption: bool) -> (loader: Self)
        ensures
            loader.decrypts() == with_decryption,
            forall|name: Seq<char>, outcome: Outcome|
                loader.may_answer(name, outcome) == client.answers(name, with_decryption, outcome),
    {
        Self { client, with_decryption }
    }
}

impl<C: SsmFetchSecret + Send + Sync + 'static> LoadSecrets for SsmSecretsLoader<C> {
    closed spec fn may_answer(&self, name: Seq<char>, outcome: Outcome) -> bool {
        self.client.answers(name, self.with_decryption, outcome)
    }

    /// Fetches each requested parameter in turn and merges the outcomes:
    /// the table has one entry per distinct name.
    fn load(&self, secrets: SecretsToFetch) -> (fetched: FetchedSecrets) {
        let mut outcomes: Vec<FetchedSecret> = Vec::new();
        let mut i: usize = 0;
        while i < secrets.secrets.len()
            invariant
                i <= secrets.secrets.len(),
                outcomes.len() == i,
                forall|j: int| 0 <= j < i ==> (#[trigger] outcomes@[j])@.is_exclusive(),
                forall|j: int|
                    0 <= j < i ==> self.may_answer(
                        secrets.secrets@[j]@,
                        (#[trigger] outcomes@[j])@,
                    ),
            decreases secrets.secrets.len() - i,
        {
            let secret = self.client.fetch_secret(secrets.secrets[i].clone(), self.with_decryption);
            outcomes.push(secret);
            i += 1;
        }
        proof {
            let names = secrets.names();
            let fetched_outcomes = outcomes_of(outcomes@);
            lemma_merged_is_complete(names, fetched_outcomes);
            assert forall|name: Seq<char>| #[trigger]
                merged(names, fetched_outcomes).contains_key(name) implies merged(
                names,
                fetched_outcomes,
            )[name].is_exclusive() && self.may_answer(name, merged(names, fetched_outcomes)[name]) by {
                lemma_merged_entry(names, fetched_outcomes, name);
                let at = last_position(names, name, names.len());
                assert(fetched_outcomes[at] == outcomes@[at]@);
            }
        }
        merge(secrets.secrets, outcomes)
    }
}

} // verus!
