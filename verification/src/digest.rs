//! Digests of build artefacts: the SHA-256 of a target file followed by its
//! dependencies, written in lowercase hexadecimal next to the target, in a
//! `digest` directory. The files are read by the caller; this module works
//! on their contents.
use vstd::prelude::*;
use crate::paths::{file_name_spec, parent_spec, path_file_name, path_parent, path_push, push_spec};
use crate::text::str_eq;
use sha2::{Digest, Sha256};

verus! {

// ------------------------------------------------------------ outside crates

/// The SHA-256 digest of some bytes.
pub uninterp spec fn sha256(data: Seq<u8>) -> Seq<u8>;

/// `sha2::Sha256::digest`: the 32 bytes of the SHA-256 digest of `data`.
#[verifier::external_body]
fn sha256_digest(data: &[u8]) -> (r: Vec<u8>)
    ensures
        r@ == sha256(data@),
        r@.len() == 32,
{
    Sha256::digest(data).to_vec()
}

/// The lowercase hexadecimal digit of a number below 16.
pub open spec fn hex_digit(d: int) -> char {
    if d < 10 {
        (d + 48) as char
    } else {
        (d + 87) as char
    }
}

/// Bytes in lowercase hexadecimal, two digits per byte, high digit first.
pub open spec fn hex_spec(bytes: Seq<u8>) -> Seq<char>
    decreases bytes.len(),
{
    if bytes.len() == 0 {
        Seq::empty()
    } else {
        hex_spec(bytes.drop_last()) + seq![hex_digit(bytes.last() as int / 16), hex_digit(bytes.last() as int % 16)]
    }
}

/// `hex::encode`: the bytes in lowercase hexadecimal, two digits per byte,
/// high digit first.
#[verifier::external_body]
fn hex_encode(data: &[u8]) -> (r: String)
    ensures
        r@ == hex_spec(data@),
{
    hex::encode(data)
}

// ------------------------------------------------------------ specification

/// The contents of several files, one after the other.
pub open spec fn concat_all(parts: Seq<Seq<u8>>) -> Seq<u8>
    decreases parts.len(),
{
    if parts.len() == 0 {
        Seq::empty()
    } else {
        concat_all(parts.drop_last()) + parts.last()
    }
}

/// The digest of a target and its dependencies.
pub open spec fn digest_spec(target: Seq<u8>, deps: Seq<Seq<u8>>) -> Seq<char> {
    hex_spec(sha256(target + concat_all(deps)))
}

/// Why the digest file of a target cannot be named.
#[derive(Clone, Copy, Debug, PartialEq, Eq)]
pub enum DigestError {
    /// The target has no parent directory.
    NoParent,
    /// The target has no file name.
    NoFileName,
}

/// The digest file of a target: `digest/<name>` in the target's directory.
pub open spec fn digest_file_spec(target: Seq<char>) -> Result<Seq<char>, DigestError> {
    match parent_spec(target) {
        None => Err(DigestError::NoParent),
        Some(p) => match file_name_spec(target) {
            None => Err(DigestError::NoFileName),
            Some(f) => Ok(push_spec(push_spec(p, "digest"@), f)),
        },
    }
}

/// Whether a target has changed, given the digest recorded for it, if any.
pub open spec fn changed_spec(target_file: Seq<char>, old: Option<Seq<char>>, target: Seq<u8>, deps: Seq<Seq<u8>>) -> Result<bool, DigestError> {
    match digest_file_spec(target_file) {
        Err(e) => Err(e),
        Ok(_) => Ok(
            match old {
                None => true,
                Some(d) => d != digest_spec(target, deps),
            },
        ),
    }
}

/// The view of a result that holds a string.
pub open spec fn res_view(r: Result<String, DigestError>) -> Result<Seq<char>, DigestError> {
    match r {
        Ok(s) => Ok(s@),
        Err(e) => Err(e),
    }
}

// ------------------------------------------------------------ functions

/// The digest file of a target: `digest/<name>` in the target's directory.
pub fn digest_file_of_target_file(target_file: &str) -> (r: Result<String, DigestError>)
    ensures
        res_view(r) == digest_file_spec(target_file@),
{
    let parent = match path_parent(target_file) {
        Some(p) => p,
        None => {
            return Err(DigestError::NoParent);
        },
    };
    let name = match path_file_name(target_file) {
        Some(n) => n,
        None => {
            return Err(DigestError::NoFileName);
        },
    };
    let d = path_push(parent.as_str(), "digest");
    Ok(path_push(d.as_str(), name.as_str()))
}

/// The digest of a target's contents followed by those of its dependencies.
pub fn compute_digest(target: &Vec<u8>, deps: &Vec<Vec<u8>>) -> (r: String)
    ensures
        r@ == digest_spec(target@, deps@.map_values(|d: Vec<u8>| d@)),
        r@.len() == 64,
{
    let mut data: Vec<u8> = Vec::new();
    let mut i: usize = 0;
    while i < target.len()
        invariant
            i <= target@.len(),
            data@ == target@.take(i as int),
        decreases target@.len() - i,
    {
        data.push(target[i]);
        proof {
            assert(target@.take(i + 1) =~= target@.take(i as int).push(target@[i as int]));
        }
        i = i + 1;
    }
    proof {
        assert(target@.take(i as int) =~= target@);
    }
    let ghost dv = deps@.map_values(|d: Vec<u8>| d@);
    let mut k: usize = 0;
    while k < deps.len()
        invariant
            k <= deps@.len(),
            dv == deps@.map_values(|d: Vec<u8>| d@),
            data@ == target@ + concat_all(dv.take(k as int)),
        decreases deps@.len() - k,
    {
        let part = &deps[k];
        let ghost before = data@;
        let mut j: usize = 0;
        while j < part.len()
            invariant
                j <= part@.len(),
                data@ == before + part@.take(j as int),
            decreases part@.len() - j,
        {
            data.push(part[j]);
            proof {
                assert(part@.take(j + 1) =~= part@.take(j as int).push(part@[j as int]));
            }
            j = j + 1;
        }
        proof {
            assert(part@.take(j as int) =~= part@);
            assert(dv.take(k + 1).drop_last() =~= dv.take(k as int));
            assert(target@ + concat_all(dv.take(k + 1)) =~= before + part@);
        }
        k = k + 1;
    }
    proof {
        assert(dv.take(k as int) =~= dv);
    }
    let h = sha256_digest(data.as_slice());
    proof {
        lemma_hex_len(h@);
    }
    hex_encode(h.as_slice())
}

/// Two hexadecimal digits per byte.
pub proof fn lemma_hex_len(bytes: Seq<u8>)
    ensures
        hex_spec(bytes).len() == 2 * bytes.len(),
    decreases bytes.len(),
{
    if bytes.len() > 0 {
        lemma_hex_len(bytes.drop_last());
    }
}

/// What to write for a target: the digest file, its directory and the
/// digest.
pub struct DigestRecord {
    pub dir: String,
    pub file: String,
    pub digest: String,
}

/// What to write to record the digest of a target and its dependencies:
/// the digest file of the target, the directory to create for it, and the
/// digest.
pub fn write_digest(target_file: &str, target: &Vec<u8>, deps: &Vec<Vec<u8>>) -> (r: Result<DigestRecord, DigestError>)
    ensures
        match digest_file_spec(target_file@) {
            Err(e) => r == Err::<DigestRecord, DigestError>(e),
            Ok(f) => match parent_spec(f) {
                None => r == Err::<DigestRecord, DigestError>(DigestError::NoParent),
                Some(d) => r matches Ok(rec) && rec.file@ == f && rec.dir@ == d && rec.digest@
                    == digest_spec(target@, deps@.map_values(|x: Vec<u8>| x@)),
            },
        },
{
    let file = match digest_file_of_target_file(target_file) {
        Ok(f) => f,
        Err(e) => {
            return Err(e);
        },
    };
    let digest = compute_digest(target, deps);
    let dir = match path_parent(file.as_str()) {
        Some(d) => d,
        None => {
            return Err(DigestError::NoParent);
        },
    };
    Ok(DigestRecord { dir, file, digest })
}

/// Whether a target has changed since its digest was recorded: there is no
/// recorded digest, or it differs from the digest of the target and its
/// dependencies now.
pub fn digest_has_changed(target_file: &str, old_digest: Option<String>, target: &Vec<u8>, deps: &Vec<Vec<u8>>) -> (r: Result<bool, DigestError>)
    ensures
        r == changed_spec(
            target_file@,
            match old_digest {
                Some(d) => Some(d@),
                None => None,
            },
            target@,
            deps@.map_values(|x: Vec<u8>| x@),
        ),
{
    match digest_file_of_target_file(target_file) {
        Ok(_) => {},
        Err(e) => {
            return Err(e);
        },
    }
    let current = compute_digest(target, deps);
    match old_digest {
        None => Ok(true),
        Some(d) => Ok(!str_eq(d.as_str(), current.as_str())),
    }
}

// ------------------------------------------------------------ laws

/// Once the digest of a target and its dependencies is recorded, the target
/// has not changed as long as it and its dependencies stay the same; a
/// target without a recorded digest has always changed.
pub proof fn lemma_recorded_digest_unchanged(target_file: Seq<char>, target: Seq<u8>, deps: Seq<Seq<u8>>)
    requires
        digest_file_spec(target_file) is Ok,
    ensures
        changed_spec(target_file, Some(digest_spec(target, deps)), target, deps) == Ok::<bool, DigestError>(false),
        changed_spec(target_file, None, target, deps) == Ok::<bool, DigestError>(true),
{
}

} // verus!
