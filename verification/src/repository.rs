//! What the engine asks of the repository: the commit that `HEAD` stands for.
use vstd::prelude::*;

verus! {

/// `git2::Repository`, a handle to a repository on disk. Nothing inside it is
/// visible here.
#[verifier::external_type_specification]
#[verifier::external_body]
pub struct ExRepository(git2::Repository);

/// `git2::Oid`, the id of an object. Nothing inside it is visible here.
#[verifier::external_type_specification]
#[verifier::external_body]
pub struct ExOid(git2::Oid);

/// `git2::Error`, what the repository reports when it fails. Nothing inside
/// it is visible here.
#[verifier::external_type_specification]
#[verifier::external_body]
pub struct ExRepositoryError(git2::Error);

/// Whether `c` is one of `0` to `9` or `a` to `f`.
pub open spec fn is_hex_digit(c: char) -> bool {
    ('0' <= c && c <= '9') || ('a' <= c && c <= 'f')
}

/// Whether `name` is an object name as git prints it: forty hexadecimal
/// digits in lower case.
pub open spec fn is_object_name(name: Seq<char>) -> bool {
    &&& name.len() == 40
    &&& forall|i: int| 0 <= i < name.len() ==> is_hex_digit(#[trigger] name[i])
}

/// `git2::Repository::refname_to_id`: the object that the reference `name`
/// resolves to, or git's error where it resolves to none or `name` is no
/// reference name. Nothing is claimed of the result: it is whatever the
/// repository holds at the time.
#[verifier::external_body]
pub(crate) fn reference_id(repo: &git2::Repository, name: &str) -> (id: Result<
    git2::Oid,
    git2::Error,
>) {
    repo.refname_to_id(name)
}

/// The `Display` form of a `git2::Oid`: libgit2 prints each of the twenty
/// bytes of a SHA-1 object id as two digits out of `0123456789abcdef`.
#[verifier::external_body]
pub(crate) fn id_text(id: &git2::Oid) -> (text: String)
    ensures
        is_object_name(text@),
{
    id.to_string()
}

} // verus!
