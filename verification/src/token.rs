//! The token by which the agent proves who it is.

use vstd::prelude::*;
use vstd::string::*;

use crate::agent::{AccountId, AgentId};

verus! {

/// The way a token is signed, as the `svc_authn` crate names it.
#[verifier::external_type_specification]
#[verifier::external_body]
pub struct ExAlgorithm(svc_authn::jose::Algorithm);

/// The error of the `svc_authn` crate's token builder.
#[verifier::external_type_specification]
#[verifier::external_body]
pub struct ExSerializationError(svc_authn::SerializationError);

/// A way to sign a token.
#[derive(Debug, Clone, Copy, PartialEq, Eq)]
pub enum SigningAlgorithm {
    HS256,
    HS384,
    HS512,
    ES256,
    ES384,
    RS256,
    RS384,
    RS512,
    PS256,
    PS384,
    PS512,
}

/// What a way to sign is called.
pub open spec fn algorithm_name(algorithm: SigningAlgorithm) -> Seq<char> {
    match algorithm {
        SigningAlgorithm::HS256 => "HS256"@,
        SigningAlgorithm::HS384 => "HS384"@,
        SigningAlgorithm::HS512 => "HS512"@,
        SigningAlgorithm::ES256 => "ES256"@,
        SigningAlgorithm::ES384 => "ES384"@,
        SigningAlgorithm::RS256 => "RS256"@,
        SigningAlgorithm::RS384 => "RS384"@,
        SigningAlgorithm::RS512 => "RS512"@,
        SigningAlgorithm::PS256 => "PS256"@,
        SigningAlgorithm::PS384 => "PS384"@,
        SigningAlgorithm::PS512 => "PS512"@,
    }
}

/// Which way to sign an `svc_authn::jose::Algorithm` stands for.
pub uninterp spec fn algorithm_view(algorithm: svc_authn::jose::Algorithm) -> SigningAlgorithm;

/// Builds an `svc_authn::jose::Algorithm` with the variant of the same name.
#[verifier::external_body]
fn outside_algorithm(algorithm: SigningAlgorithm) -> (outside: svc_authn::jose::Algorithm)
    ensures
        algorithm_view(outside) == algorithm,
{
    match algorithm {
        SigningAlgorithm::HS256 => svc_authn::jose::Algorithm::HS256,
        SigningAlgorithm::HS384 => svc_authn::jose::Algorithm::HS384,
        SigningAlgorithm::HS512 => svc_authn::jose::Algorithm::HS512,
        SigningAlgorithm::ES256 => svc_authn::jose::Algorithm::ES256,
        SigningAlgorithm::ES384 => svc_authn::jose::Algorithm::ES384,
        SigningAlgorithm::RS256 => svc_authn::jose::Algorithm::RS256,
        SigningAlgorithm::RS384 => svc_authn::jose::Algorithm::RS384,
        SigningAlgorithm::RS512 => svc_authn::jose::Algorithm::RS512,
        SigningAlgorithm::PS256 => svc_authn::jose::Algorithm::PS256,
        SigningAlgorithm::PS384 => svc_authn::jose::Algorithm::PS384,
        SigningAlgorithm::PS512 => svc_authn::jose::Algorithm::PS512,
    }
}

/// The text that the `Display` impl of `svc_authn::SerializationError` gives.
pub uninterp spec fn token_error_message(error: svc_authn::SerializationError) -> Seq<char>;

/// `to_string` on an `svc_authn::SerializationError`, which goes through its `Display`
/// impl: the text depends on the error alone.
#[verifier::external_body]
fn token_error_text(error: &svc_authn::SerializationError) -> (shown: String)
    ensures
        shown@ == token_error_message(*error),
{
    error.to_string()
}

/// What the token builder says where a token could not be signed.
pub open spec fn encoding_failure(detail: Seq<char>) -> Seq<char> {
    "encoding error, "@ + detail
}

/// The tokens that `svc_authn`'s token builder may come to. Where signing draws random
/// numbers there can be more than one.
pub uninterp spec fn possible_tokens(
    issuer: Seq<char>,
    label: Seq<char>,
    audience: Seq<char>,
    algorithm: SigningAlgorithm,
    key: Seq<u8>,
) -> Set<Seq<char>>;

/// `svc_authn::token::jws_compact::TokenBuilder` with an issuer, a subject and a key,
/// and then `build`. Any token is one of those that the issuer, the account, the
/// algorithm and the key allow. With HS256 every key gives a token, and always the same
/// one, since nothing is drawn at random and no time goes into it. With ES256 it is left
/// open which token comes and, where the key is a valid one, whether one does: signing
/// draws random numbers. The error then says that encoding failed, and why. No other
/// algorithm is supported, and the error says which one it was.
#[verifier::external_body]
fn build_token(
    issuer: &str,
    subject: &AccountId,
    algorithm: svc_authn::jose::Algorithm,
    key: &[u8],
) -> (outcome: Result<String, svc_authn::SerializationError>)
    ensures
        outcome is Ok ==> possible_tokens(
            issuer@,
            subject.label@,
            subject.audience@,
            algorithm_view(algorithm),
            key@,
        ).contains(outcome->Ok_0@),
        algorithm_view(algorithm) is HS256 ==> outcome is Ok && possible_tokens(
            issuer@,
            subject.label@,
            subject.audience@,
            algorithm_view(algorithm),
            key@,
        ) == set![outcome->Ok_0@],
        !(algorithm_view(algorithm) is HS256) && !(algorithm_view(algorithm) is ES256)
            ==> outcome is Err && token_error_message(outcome->Err_0) == "unsupported algorithm "@
            + algorithm_name(algorithm_view(algorithm)),
        algorithm_view(algorithm) is ES256 && outcome is Err ==> exists|detail: Seq<char>|
            token_error_message(outcome->Err_0) == #[trigger] encoding_failure(detail),
{
    svc_authn::token::jws_compact::TokenBuilder::new()
        .issuer(issuer)
        .subject(&svc_authn::AccountId::new(&subject.label, &subject.audience))
        .key(algorithm, key)
        .build()
}

/// Why there is no token.
#[derive(Debug, PartialEq)]
pub struct TokenError {
    /// What the token builder says.
    pub cause: String,
}

impl TokenError {
    /// What the error says.
    pub fn text(&self) -> (text: &'static str)
        ensures
            text@ == "Error creating an id token"@,
    {
        "Error creating an id token"
    }
}

/// The token that was built, or why there is none.
pub fn judge_token(
    outcome: Result<String, svc_authn::SerializationError>,
) -> (token: Result<String, TokenError>)
    ensures
        match outcome {
            Ok(built) => token == Ok::<String, TokenError>(built),
            Err(error) => token is Err && token->Err_0.cause@ == token_error_message(error),
        },
{
    match outcome {
        Ok(built) => Ok(built),
        Err(error) => Err(TokenError { cause: token_error_text(&error) }),
    }
}

/// The tokens that an agent can come to, issued by its own audience.
pub open spec fn agent_tokens(
    agent_id: AgentId,
    algorithm: SigningAlgorithm,
    key: Seq<u8>,
) -> Set<Seq<char>> {
    possible_tokens(
        agent_id.account_id.audience@,
        agent_id.account_id.label@,
        agent_id.account_id.audience@,
        algorithm,
        key,
    )
}

/// The token of an agent, issued by its own audience, or why it cannot be built. HS256
/// gives a token for every key, and always the same one; ES256 may give one, or say why
/// it could not sign; nothing else gives one.
pub fn id_token(
    agent_id: &AgentId,
    algorithm: SigningAlgorithm,
    key: &[u8],
) -> (token: Result<String, TokenError>)
    ensures
        match algorithm {
            SigningAlgorithm::HS256 => token is Ok && agent_tokens(*agent_id, algorithm, key@)
                == set![token->Ok_0@],
            SigningAlgorithm::ES256 => match token {
                Ok(built) => agent_tokens(*agent_id, algorithm, key@).contains(built@),
                Err(failure) => {
                    &&& exists|error: svc_authn::SerializationError|
                        failure.cause@ == #[trigger] token_error_message(error)
                    &&& exists|detail: Seq<char>|
                        failure.cause@ == #[trigger] encoding_failure(detail)
                },
            },
            _ => token is Err && token->Err_0.cause@ == "unsupported algorithm "@ + algorithm_name(
                algorithm,
            ),
        },
        token matches Ok(built) ==> possible_tokens(
            agent_id.account_id.audience@,
            agent_id.account_id.label@,
            agent_id.account_id.audience@,
            algorithm,
            key@,
        ).contains(built@),
{
    let account = &agent_id.account_id;
    judge_token(
        build_token(account.audience.as_str(), account, outside_algorithm(algorithm), key),
    )
}

} // verus!
