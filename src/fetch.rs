//! The decisions taken while a role's documents are collected: the names of
//! its inline documents, which version of a document is read, and how a
//! downloaded document is decoded.

use vstd::prelude::*;

verus! {

/// The name under which an inline document of a role is fetched.
pub open spec fn inline_arn(account_id: Seq<char>, role_name: Seq<char>, policy_name: Seq<char>) -> Seq<char> {
    "arn:aws:iam::"@ + account_id + ":role/"@ + role_name + "/"@ + policy_name
}

/// Names an inline document of a role.
pub fn inline_policy_arn(account_id: &str, role_name: &str, policy_name: &str) -> (r: String)
    ensures
        r@ == inline_arn(account_id@, role_name@, policy_name@),
{
    let arn = "arn:aws:iam::".to_owned();
    let arn = arn.concat(account_id);
    let arn = arn.concat(":role/");
    let arn = arn.concat(role_name);
    let arn = arn.concat("/");
    arn.concat(policy_name)
}

/// Names each inline document of a role, in order.
pub fn inline_policy_arns(account_id: &str, role_name: &str, policy_names: &Vec<String>) -> (r: Vec<String>)
    ensures
        r@.len() == policy_names@.len(),
        forall|i: int|
            0 <= i < policy_names@.len() ==> (#[trigger] r@[i])@ == inline_arn(account_id@, role_name@, policy_names@[i]@),
{
    let mut arns: Vec<String> = Vec::new();
    let mut i: usize = 0;
    while i < policy_names.len()
        invariant
            i <= policy_names@.len(),
            arns@.len() == i,
            forall|j: int|
                0 <= j < i ==> (#[trigger] arns@[j])@ == inline_arn(account_id@, role_name@, policy_names@[j]@),
        decreases policy_names@.len() - i,
    {
        arns.push(inline_policy_arn(account_id, role_name, policy_names[i].as_str()));
        i = i + 1;
    }
    arns
}

/// Why no version of a document can be read.
#[derive(Clone, Copy, Debug, PartialEq, Eq)]
pub enum VersionError {
    /// No version is marked as the default one.
    NoDefaultVersion,
    /// The default version carries no identifier.
    MissingVersionId,
}

/// The identifier of the first version marked as the default, given each
/// version as (is the default, identifier).
pub open spec fn default_version(versions: Seq<(bool, Option<String>)>) -> Result<Seq<char>, VersionError>
    decreases versions.len(),
{
    if versions.len() == 0 {
        Err(VersionError::NoDefaultVersion)
    } else if versions[0].0 {
        match versions[0].1 {
            Some(id) => Ok(id@),
            None => Err(VersionError::MissingVersionId),
        }
    } else {
        default_version(versions.drop_first())
    }
}

/// Picks the version of a document to read: the first one marked as the
/// default.
pub fn default_version_id(versions: &Vec<(bool, Option<String>)>) -> (r: Result<String, VersionError>)
    ensures
        match r {
            Ok(id) => default_version(versions@) == Ok::<Seq<char>, VersionError>(id@),
            Err(e) => default_version(versions@) == Err::<Seq<char>, VersionError>(e),
        },
{
    let mut i: usize = 0;
    assert(versions@.subrange(0, versions@.len() as int) =~= versions@);
    while i < versions.len()
        invariant
            i <= versions@.len(),
            default_version(versions@) == default_version(versions@.subrange(i as int, versions@.len() as int)),
        decreases versions@.len() - i,
    {
        let ghost rest = versions@.subrange(i as int, versions@.len() as int);
        assert(rest.drop_first() =~= versions@.subrange(i + 1, versions@.len() as int));
        assert(rest[0] == versions@[i as int]);
        let (is_default, id) = &versions[i];
        if *is_default {
            return match id {
                Some(id) => Ok(id.clone()),
                None => Err(VersionError::MissingVersionId),
            };
        }
        i = i + 1;
    }
    Err(VersionError::NoDefaultVersion)
}

/// What `form_urlencoded::parse` finds in a text: the names of its
/// `name=value` pairs, percent-decoded and joined.
pub uninterp spec fn form_decoded_names(s: Seq<char>) -> Seq<char>;

/// Relies on `url::form_urlencoded::parse`: the pairs of an
/// `application/x-www-form-urlencoded` text; the decoded names are joined.
/// An empty text holds no pairs.
#[verifier::external_body]
fn decode_form_names(s: &str) -> (r: String)
    ensures
        r@ == form_decoded_names(s@),
        s@.len() == 0 ==> r@.len() == 0,
{
    url::form_urlencoded::parse(s.as_bytes()).map(|(name, _)| name).collect()
}

/// Decodes a downloaded document, which comes URL-encoded, into its JSON text.
pub fn decode_policy_document(encoded: &str) -> (r: String)
    ensures
        r@ == form_decoded_names(encoded@),
        encoded@.len() == 0 ==> r@.len() == 0,
{
    decode_form_names(encoded)
}

} // verus!
