//! The loader for AWS Secrets Manager.

use crate::aws::loader::{
    last_position, lemma_merged_entry, lemma_merged_is_complete, merge, merged, outcomes_of,
    LoadSecrets,
};
use crate::vector::{FetchedSecret, FetchedSecrets, Outcome, SecretsToFetch};
use vstd::prelude::*;
use vstd::string::StringExecFns;

verus! {

/// The capability of fetching one secret from Secrets Manager. The outcome
/// says what became of the fetch: it holds the value or a diagnostic, never
/// both and never neither.
pub trait SecretsManagerFetchSecret {
    /// Whether the client may answer a fetch of `name` with `outcome`. A
    /// client that says nothing of itself admits every answer.
    open spec fn answers(&self, name: Seq<char>, outcome: Outcome) -> bool {
        true
    }

    fn fetch_secret(&self, name: String) -> (secret: FetchedSecret)
        ensures
            secret@.is_exclusive(),
            self.answers(name@, secret@),
    ;
}

/// What came back from one `GetSecretValue` call.
pub enum GetSecretValueReply {
    /// The call succeeded; the output may lack the secret's text.
    Output { secret_string: Option<String> },
    /// The service rejected the call; `detail` is the service's own account.
    ServiceError { detail: String },
    /// The call failed before the service answered; `message` is the
    /// error's text.
    OtherError { message: String },
}

impl GetSecretValueReply {
    /// The outcome that a reply amounts to.
    pub open spec fn outcome(self) -> Outcome {
        match self {
            GetSecretValueReply::Output { secret_string: Some(secret) } => Outcome::success(
                secret@,
            ),
            GetSecretValueReply::Output { secret_string: None } => Outcome::failure(
                "secret not found"@,
            ),
            GetSecretValueReply::ServiceError { detail } => Outcome::failure(
                "service error: "@ + detail@,
            ),
            GetSecretValueReply::OtherError { message } => Outcome::failure(message@),
        }
    }

    /// Turns a reply into the outcome of the fetch: the secret's text if
    /// the reply carries it, else a diagnostic.
    pub fn into_fetched_secret(self) -> (secret: FetchedSecret)
        ensures
            secret@ == self.outcome(),
            secret@.is_exclusive(),
    {
        match self {
            GetSecretValueReply::Output { secret_string } => match secret_string {
                Some(secret) => FetchedSecret::success(secret),
                None => FetchedSecret::failure(String::from_str("secret not found")),
            },
            GetSecretValueReply::ServiceError { detail } => FetchedSecret::failure(
                String::from_str("service error: ").concat(detail.as_str()),
            ),
            GetSecretValueReply::OtherError { message } => FetchedSecret::failure(message),
        }
    }
}

/// Loads secrets from Secrets Manager through a client.
pub struct SecretsManagerSecretsLoader<C: SecretsManagerFetchSecret> {
    client: C,
}

impl<C: SecretsManagerFetchSecret + Send + Sync + 'static> SecretsManagerSecretsLoader<C> {
    /// A loader that fetches through `client`.
    pub fn new(client: C) -> (loader: Self)
        ensures
            forall|name: Seq<char>, outcome: Outcome|
                loader.may_answer(name, outcome) == client.answers(name, outcome),
    {
        Self { client }
    }
}

impl<C: SecretsManagerFetchSecret + Send + Sync + 'static> LoadSecrets for SecretsManagerSecretsLoader<
    C,
> {
    closed spec fn may_answer(&self, name: Seq<char>, outcome: Outcome) -> bool {
        self.client.answers(name, outcome)
    }

    /// Fetches each requested secret in turn and merges the outcomes: the
    /// table has one entry per distinct name.
    fn load(&self, secrets: SecretsToFetch) -> (fetched: FetchedSecrets) {
        let mut outcomes: Vec<FetchedSecret> = Vec::new();
        let mut i: usize = 0;
        while i < secrets.secrets.len()
            invariant
                i <= secrets.secrets.len(),
                outcomes.len() == i,
                forall|j: int| 0 <= j < i ==> (#[trigger] outcomes@[j])@.is_exclusive(),
                forall|j: int|
                    0 <= j < i ==> self.may_answer(
                        secrets.secrets@[j]@,
                        (#[trigger] outcomes@[j])@,
                    ),
            decreases secrets.secrets.len() - i,
        {
            let secret = self.client.fetch_secret(secrets.secrets[i].clone());
            outcomes.push(secret);
            i += 1;
        }
        proof {
            let names = secrets.names();
            let fetched_outcomes = outcomes_of(outcomes@);
            lemma_merged_is_complete(names, fetched_outcomes);
            assert forall|name: Seq<char>| #[trigger]
                merged(names, fetched_outcomes).contains_key(name) implies merged(
                names,
                fetched_outcomes,
            )[name].is_exclusive() && self.may_answer(name, merged(names, fetched_outcomes)[name]) by {
                lemma_merged_entry(names, fetched_outcomes, name);
                let at = last_position(names, name, names.len());
                assert(fetched_outcomes[at] == outcomes@[at]@);
            }
        }
        merge(secrets.secrets, outcomes)
    }
}

} // verus!
