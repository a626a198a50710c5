//! Logging in: what a login takes from the account's sign-in data, the
//! password digest sent in place of the password, and the states a login
//! settles in.

use vstd::prelude::*;
use vstd::utf8::encode_utf8;
use sha2::Digest;
use crate::plist::{PlistValue, PlistView, Entries, entries_view, dget, dict_find, as_unsigned, lookup};
use crate::text::{decimal, u64_to_decimal};

verus! {

type Entry = (String, PlistValue);

/// Why a login stopped before it registered.
#[derive(PartialEq, Eq, Structural, Clone, Copy)]
pub enum LoginError {
    /// The account holds no password-equivalent token.
    NoPet,
    /// The account holds no sign-in data.
    NoSpd,
    /// The sign-in data has no account name.
    NoAcname,
    /// The sign-in data has no directory-services identifier.
    NoDsid,
    /// The sign-in data has no alternate identifier.
    NoAdsid,
}

/// The message a login error is reported with.
pub open spec fn login_error_message(e: LoginError) -> Seq<char> {
    match e {
        LoginError::NoPet => "No pet!"@,
        LoginError::NoSpd => "No spd!"@,
        LoginError::NoAcname => "No acname!"@,
        LoginError::NoDsid => "No dsid!"@,
        LoginError::NoAdsid => "No adsid!"@,
    }
}

impl LoginError {
    /// The message this error is reported with.
    pub fn message(&self) -> (r: &'static str)
        ensures
            r@ == login_error_message(*self),
    {
        match self {
            LoginError::NoPet => "No pet!",
            LoginError::NoSpd => "No spd!",
            LoginError::NoAcname => "No acname!",
            LoginError::NoDsid => "No dsid!",
            LoginError::NoAdsid => "No adsid!",
        }
    }
}

/// The identifiers a login takes from the account's sign-in data.
pub struct SpdIds {
    pub acname: String,
    /// The directory-services identifier, in decimal.
    pub dsid: String,
    pub adsid: String,
}

/// Sign-in data a login can read without failing hard: each identifier
/// that is there has the type it is read as (a login stops at the first
/// one missing).
pub open spec fn spd_readable(spd: Entries) -> bool {
    let acname = dget(spd, "acname"@);
    let dsid = dget(spd, "DsPrsId"@);
    let adsid = dget(spd, "adsid"@);
    &&& acname is Some ==> acname->0 is String
    &&& acname is Some && dsid is Some ==> as_unsigned(dsid->0) is Some
    &&& acname is Some && dsid is Some && adsid is Some ==> adsid->0 is String
}

/// Reads the identifiers a login needs: fails where the account has no
/// password-equivalent token, no sign-in data, or the sign-in data lacks
/// one of the identifiers, in that order.
pub fn login_ids(has_pet: bool, spd: Option<&Vec<Entry>>) -> (r: Result<SpdIds, LoginError>)
    requires
        spd matches Some(d) ==> spd_readable(entries_view(d@)),
    ensures
        !has_pet ==> r == Err::<SpdIds, LoginError>(LoginError::NoPet),
        has_pet && spd is None ==> r == Err::<SpdIds, LoginError>(LoginError::NoSpd),
        has_pet && spd is Some ==> {
            let e = entries_view(spd->0@);
            match r {
                Ok(ids) => {
                    &&& dget(e, "acname"@) == Some(PlistView::String(ids.acname@))
                    &&& dget(e, "DsPrsId"@) matches Some(v) && ids.dsid@ == decimal(
                        as_unsigned(v)->0 as nat,
                    )
                    &&& dget(e, "adsid"@) == Some(PlistView::String(ids.adsid@))
                },
                Err(err) => {
                    ||| dget(e, "acname"@) is None && err == LoginError::NoAcname
                    ||| dget(e, "acname"@) is Some && dget(e, "DsPrsId"@) is None && err
                        == LoginError::NoDsid
                    ||| dget(e, "acname"@) is Some && dget(e, "DsPrsId"@) is Some && dget(
                        e,
                        "adsid"@,
                    ) is None && err == LoginError::NoAdsid
                },
            }
        },
{
    if !has_pet {
        return Err(LoginError::NoPet);
    }
    let d = match spd {
        None => return Err(LoginError::NoSpd),
        Some(d) => d,
    };
    let acname = match lookup(d, "acname") {
        None => return Err(LoginError::NoAcname),
        Some(PlistValue::String(s)) => s.clone(),
        Some(_) => {
            assert(false);
            String::new()
        },
    };
    let dsid = match lookup(d, "DsPrsId") {
        None => return Err(LoginError::NoDsid),
        Some(PlistValue::Integer(i)) => {
            let n: u64 = *i as u64;
            u64_to_decimal(n)
        },
        Some(_) => {
            assert(false);
            String::new()
        },
    };
    let adsid = match lookup(d, "adsid") {
        None => return Err(LoginError::NoAdsid),
        Some(PlistValue::String(s)) => s.clone(),
        Some(_) => {
            assert(false);
            String::new()
        },
    };
    Ok(SpdIds { acname, dsid, adsid })
}

/// The SHA-256 digest of a byte string.
pub uninterp spec fn sha256_of(data: Seq<u8>) -> Seq<u8>;

/// Trusted: the SHA-256 digest of `data`, from `sha2::Sha256` (fed the
/// bytes once, then finalized); the digest is thirty-two bytes.
#[verifier::external_body]
fn sha256(data: &[u8]) -> (r: Vec<u8>)
    ensures
        r@ == sha256_of(data@),
        r@.len() == 32,
{
    let mut hasher = sha2::Sha256::new();
    hasher.update(data);
    hasher.finalize().to_vec()
}

/// The password digest a login sends: SHA-256 of the password's UTF-8
/// bytes.
pub fn hash_password(password: &str) -> (r: Vec<u8>)
    ensures
        r@ == sha256_of(encode_utf8(password@)),
        r@.len() == 32,
{
    sha256(password.as_bytes())
}

/// A login's state, as far as the bridge tells the states apart; `S`
/// stands for the states it passes on as they are.
pub enum LoginStage<S> {
    LoggedIn,
    /// The account asks for one more step, described by the text.
    NeedsExtraStep(String),
    Other(S),
}

/// The state a login settles in once verified: where the account holds a
/// password-equivalent token, an extra step asked for is not needed.
pub fn settle_login<S>(stage: LoginStage<S>, has_pet: bool) -> (r: LoginStage<S>)
    ensures
        has_pet && stage is NeedsExtraStep ==> r is LoggedIn,
        !(has_pet && stage is NeedsExtraStep) ==> r == stage,
{
    match stage {
        LoginStage::NeedsExtraStep(s) => if has_pet {
            LoginStage::LoggedIn
        } else {
            LoginStage::NeedsExtraStep(s)
        },
        other => other,
    }
}

/// How setting up the trusted-peer circle went.
pub enum CliqueSetup<E> {
    /// There was no circle session to set up.
    NoSession,
    /// It went through.
    Done,
    /// The circle was already over.
    CircleOver,
    /// It failed otherwise.
    Failed(E),
}

/// Whether the circle setup leaves nothing to do (`true`) or the circle
/// is now set up (`false`); other failures are passed on.
pub fn clique_result<E>(s: CliqueSetup<E>) -> (r: Result<bool, E>)
    ensures
        s is NoSession ==> r == Ok::<bool, E>(true),
        s is CircleOver ==> r == Ok::<bool, E>(true),
        s is Done ==> r == Ok::<bool, E>(false),
        s matches CliqueSetup::Failed(e) ==> r == Err::<bool, E>(e),
{
    match s {
        CliqueSetup::NoSession => Ok(true),
        CliqueSetup::CircleOver => Ok(true),
        CliqueSetup::Done => Ok(false),
        CliqueSetup::Failed(e) => Err(e),
    }
}

/// The stored account credentials.
pub struct GsaState {
    pub username: String,
    pub encrypted_password: Vec<u8>,
    pub postdata_done: Option<bool>,
}

/// Marks the account's device data as sent; returns whether it had not
/// been, in which case it is to be sent now and the state saved.
pub fn mark_postdata(state: &mut GsaState) -> (pending: bool)
    ensures
        pending == old(state).postdata_done is None,
        final(state).username == old(state).username,
        final(state).encrypted_password == old(state).encrypted_password,
        final(state).postdata_done == if pending {
            Some(true)
        } else {
            old(state).postdata_done
        },
{
    if state.postdata_done.is_none() {
        state.postdata_done = Some(true);
        true
    } else {
        false
    }
}

/// The flavor of a provisioned anisette state.
#[derive(PartialEq, Eq, Structural, Clone, Copy)]
pub enum ProvisionedFlavor {
    Mac,
    IOS,
}

/// Whether sign-in must present itself as a Mac: only where the stored
/// anisette state could be read and was provisioned as a Mac. `state` is
/// `None` where it could not be read, and holds the provisioned flavor,
/// if any, otherwise.
pub fn require_mac(state: Option<Option<ProvisionedFlavor>>) -> (r: bool)
    ensures
        r == (state == Some(Some(ProvisionedFlavor::Mac))),
{
    match state {
        Some(Some(ProvisionedFlavor::Mac)) => true,
        _ => false,
    }
}

/// The directory-services identifier in the sign-in data, which a
/// verification request to the account's devices is addressed with.
pub fn spd_dsid(spd: &Vec<Entry>) -> (r: u64)
    requires
        dget(entries_view(spd@), "DsPrsId"@) matches Some(v) && as_unsigned(v) is Some,
    ensures
        dget(entries_view(spd@), "DsPrsId"@) matches Some(v) && as_unsigned(v) == Some(r),
{
    let v = lookup(spd, "DsPrsId").unwrap();
    crate::plist::value_as_unsigned(v).unwrap()
}

/// Why registering the users failed.
pub enum RegisterError<A, E> {
    /// The service asked to show the user this support message.
    CustomerMessage(A),
    Other(E),
}

/// The reply to a registration: the registered users (to be saved), or
/// the support message to show; other failures are passed on.
pub fn registration_reply<U, A, E>(r: Result<U, RegisterError<A, E>>) -> (reply: Result<
    (Option<U>, Option<A>),
    E,
>)
    ensures
        r matches Ok(u) ==> reply == Ok::<(Option<U>, Option<A>), E>((Some(u), None)),
        r matches Err(RegisterError::CustomerMessage(a)) ==> reply == Ok::<
            (Option<U>, Option<A>),
            E,
        >((None, Some(a))),
        r matches Err(RegisterError::Other(e)) ==> reply == Err::<(Option<U>, Option<A>), E>(e),
{
    match r {
        Ok(u) => Ok((Some(u), None)),
        Err(RegisterError::CustomerMessage(a)) => Ok((None, Some(a))),
        Err(RegisterError::Other(e)) => Err(e),
    }
}

} // verus!
