//! The bot token in the system's keychain.
//!
//! The keychain is reached through the `keyring` crate. What it stores and
//! gives back is for it to decide; what is made of its answers is decided
//! here.
use crate::chars::{join2, starts_with, str_same, trim, trim_str};
use crate::codex_types::{opt_text, text_result};
use vstd::prelude::*;

verus! {

/// The type `keyring::Entry`, which is only carried through.
#[verifier::external_type_specification]
#[verifier::external_body]
pub struct ExEntry(keyring::Entry);

/// The type `keyring::Error`, which is only carried through.
#[verifier::external_type_specification]
#[verifier::external_body]
pub struct ExKeyringError(keyring::Error);

/// Whether a token is stored, where, and what went wrong when looking.
#[derive(Debug, Clone, PartialEq)]
pub struct SecretStatus {
    pub stored: bool,
    pub error: Option<String>,
    pub mode: String,
}

/// What reading a stored token gave.
#[derive(Debug, Clone, PartialEq)]
pub enum ReadOutcome {
    /// The stored text.
    Found(String),
    /// Nothing is stored.
    Missing,
    /// The store failed, with its complaint.
    Failed(String),
}

/// The mathematical value of a `ReadOutcome`.
pub enum ReadOutcomeView {
    Found(Seq<char>),
    Missing,
    Failed(Seq<char>),
}

impl ReadOutcome {
    /// The mathematical value.
    pub open spec fn view(&self) -> ReadOutcomeView {
        match self {
            ReadOutcome::Found(text) => ReadOutcomeView::Found(text@),
            ReadOutcome::Missing => ReadOutcomeView::Missing,
            ReadOutcome::Failed(e) => ReadOutcomeView::Failed(e@),
        }
    }
}

/// Whether a complaint of the keychain says that nothing is stored.
pub uninterp spec fn keyring_no_entry(e: keyring::Error) -> bool;

/// The text that a complaint of the keychain displays as.
pub uninterp spec fn keyring_complaint(e: keyring::Error) -> Seq<char>;

/// `Entry::new`: the keychain entry for a service and a user, or the
/// keychain's complaint. Nothing is claimed of which it is.
#[verifier::external_body]
fn open_entry(service: &str, user: &str) -> (r: Result<keyring::Entry, keyring::Error>) {
    keyring::Entry::new(service, user)
}

/// `Entry::set_password`. Nothing is claimed of whether it succeeds.
#[verifier::external_body]
fn store_password(entry: &keyring::Entry, password: &str) -> (r: Result<(), keyring::Error>) {
    entry.set_password(password)
}

/// `Entry::get_password`. Nothing is claimed of what it gives.
#[verifier::external_body]
fn read_password(entry: &keyring::Entry) -> (r: Result<String, keyring::Error>) {
    entry.get_password()
}

/// `Entry::delete_credential`. Nothing is claimed of whether it succeeds.
#[verifier::external_body]
fn delete_password(entry: &keyring::Entry) -> (r: Result<(), keyring::Error>) {
    entry.delete_credential()
}

/// Whether a complaint of the keychain is `Error::NoEntry`, which depends
/// on the complaint alone.
#[verifier::external_body]
fn is_no_entry(e: &keyring::Error) -> (r: bool)
    ensures
        r == keyring_no_entry(*e),
{
    matches!(e, keyring::Error::NoEntry)
}

/// The `Display` form of a complaint of the keychain, which depends on the
/// complaint alone.
#[verifier::external_body]
fn complaint(e: &keyring::Error) -> (r: String)
    ensures
        r@ == keyring_complaint(*e),
{
    e.to_string()
}

/// What is returned when the keychain refuses the entry with the complaint
/// `k`.
pub open spec fn entry_error(k: keyring::Error) -> Seq<char> {
    "keyring entry error: "@ + keyring_complaint(k)
}

/// What an answer of the keychain to the opening of an entry amounts to: the
/// entry, or the error to return.
pub open spec fn entry_outcome(got: Result<keyring::Entry, keyring::Error>) -> Result<
    keyring::Entry,
    Seq<char>,
> {
    match got {
        Ok(entry) => Ok(entry),
        Err(k) => Err(entry_error(k)),
    }
}

/// The view of an entry or an error.
pub open spec fn entry_view(r: Result<keyring::Entry, String>) -> Result<
    keyring::Entry,
    Seq<char>,
> {
    match r {
        Ok(entry) => Ok(entry),
        Err(e) => Err(e@),
    }
}

/// What an answer of the keychain to the reading of a password amounts to:
/// the text that it gave; nothing stored, where it says so; else its
/// complaint.
pub open spec fn reading(got: Result<String, keyring::Error>) -> ReadOutcomeView {
    match got {
        Ok(text) => ReadOutcomeView::Found(text@),
        Err(k) => if keyring_no_entry(k) {
            ReadOutcomeView::Missing
        } else {
            ReadOutcomeView::Failed(keyring_complaint(k))
        },
    }
}

/// The token that a reading amounts to: the text found; else an error that
/// says that the token is missing, or that carries the complaint.
pub open spec fn token_in(outcome: ReadOutcomeView) -> Result<Seq<char>, Seq<char>> {
    match outcome {
        ReadOutcomeView::Found(text) => Ok(text),
        ReadOutcomeView::Missing => Err("Telegram token missing"@),
        ReadOutcomeView::Failed(e) => Err("get token failed: "@ + e),
    }
}

/// `r` is what the answers of the keychain amount to when the token is
/// asked for: the error of an entry that it refused, or the token of what it
/// read.
pub open spec fn token_from_keychain(r: Result<Seq<char>, Seq<char>>) -> bool {
    ||| exists|k: keyring::Error| r == Err::<Seq<char>, Seq<char>>(#[trigger] entry_error(k))
    ||| exists|got: Result<String, keyring::Error>| r == token_in(#[trigger] reading(got))
}

/// `r` is what the answer of the keychain amounts to when the token is
/// removed: the error of an entry that it refused, or success, whatever
/// came of the removal.
pub open spec fn removal_from_keychain(r: Result<(), Seq<char>>) -> bool {
    exists|opened: Result<keyring::Entry, keyring::Error>|
        r == match #[trigger] entry_outcome(opened) {
            Ok(_) => Ok::<(), Seq<char>>(()),
            Err(e) => Err::<(), Seq<char>>(e),
        }
}

/// The view of a result without a value.
pub open spec fn done_view(r: Result<(), String>) -> Result<(), Seq<char>> {
    match r {
        Ok(_) => Ok(()),
        Err(e) => Err(e@),
    }
}

/// The entry that the keychain gave, or the error to return for its
/// complaint.
pub fn entry_of(got: Result<keyring::Entry, keyring::Error>) -> (r: Result<keyring::Entry, String>)
    ensures
        entry_view(r) == entry_outcome(got),
        r matches Err(e) ==> starts_with(e@, "keyring entry error: "@),
{
    match got {
        Ok(entry) => Ok(entry),
        Err(k) => {
            let text = join2("keyring entry error: ", complaint(&k).as_str());
            assert(text@.subrange(0, "keyring entry error: "@.len() as int)
                =~= "keyring entry error: "@);
            Err(text)
        },
    }
}

/// What the keychain's answer to the reading of a password amounts to.
pub fn reading_of(got: Result<String, keyring::Error>) -> (r: ReadOutcome)
    ensures
        r@ == reading(got),
{
    match got {
        Ok(text) => ReadOutcome::Found(text),
        Err(k) => {
            if is_no_entry(&k) {
                ReadOutcome::Missing
            } else {
                ReadOutcome::Failed(complaint(&k))
            }
        },
    }
}

/// The token as it is stored: without the whitespace around it. A blank
/// token is refused.
pub open spec fn checked_token(token: Seq<char>) -> Result<Seq<char>, Seq<char>> {
    if trim(token).len() == 0 {
        Err("token is empty"@)
    } else {
        Ok(trim(token))
    }
}

/// The token as it is stored, or why it is refused.
pub fn check_token(token: &str) -> (r: Result<String, String>)
    ensures
        text_result(r) == checked_token(token@),
{
    let t = trim_str(token);
    if t.as_str().is_empty() {
        Err("token is empty".to_owned())
    } else {
        Ok(t)
    }
}

/// Whether what was read back after storing `token` is `token`.
pub fn verify_read_back(token: &str, read_back: &str) -> (r: Result<(), String>)
    ensures
        r.is_ok() == (read_back@ == token@),
        r matches Err(e) ==> e@ == "token read-back verification failed"@,
{
    if str_same(read_back, token) {
        Ok(())
    } else {
        Err("token read-back verification failed".to_owned())
    }
}

/// The status that a reading of the store `mode` amounts to: a token is
/// stored where the text read is not blank; that nothing is stored is no
/// error.
pub fn status_of_read(mode: &str, outcome: ReadOutcome) -> (r: SecretStatus)
    ensures
        r.mode@ == mode@,
        match outcome {
            ReadOutcome::Found(text) => r.stored == (trim(text@).len() > 0) && r.error.is_none(),
            ReadOutcome::Missing => !r.stored && r.error.is_none(),
            ReadOutcome::Failed(e) => !r.stored && opt_text(r.error) == Some(e@),
        },
{
    match outcome {
        ReadOutcome::Found(text) => {
            let t = trim_str(text.as_str());
            SecretStatus { stored: !t.as_str().is_empty(), error: None, mode: mode.to_owned() }
        },
        ReadOutcome::Missing => SecretStatus { stored: false, error: None, mode: mode.to_owned() },
        ReadOutcome::Failed(e) => SecretStatus {
            stored: false,
            error: Some(e),
            mode: mode.to_owned(),
        },
    }
}

/// The status after a token was saved: that no token is found then, without
/// an error of the store, is an error of its own.
pub fn after_saving(status: SecretStatus) -> (r: SecretStatus)
    ensures
        r.stored == status.stored,
        r.mode == status.mode,
        opt_text(r.error) == if !status.stored && status.error.is_none() {
            Some("Token was not found after saving. Try enabling File (fallback)."@)
        } else {
            opt_text(status.error)
        },
{
    if !status.stored && status.error.is_none() {
        SecretStatus {
            stored: status.stored,
            error: Some(
                "Token was not found after saving. Try enabling File (fallback).".to_owned(),
            ),
            mode: status.mode,
        }
    } else {
        status
    }
}

/// The token that a reading of the store amounts to.
pub fn token_of_read(outcome: ReadOutcome) -> (r: Result<String, String>)
    ensures
        text_result(r) == token_in(outcome@),
        match outcome {
            ReadOutcome::Found(text) => text_result(r) == Ok::<Seq<char>, Seq<char>>(text@),
            ReadOutcome::Missing => text_result(r) == Err::<Seq<char>, Seq<char>>(
                "Telegram token missing"@,
            ),
            ReadOutcome::Failed(e) => text_result(r) == Err::<Seq<char>, Seq<char>>(
                "get token failed: "@ + e@,
            ),
        },
        r matches Err(e) ==> e@ == "Telegram token missing"@ || starts_with(
            e@,
            "get token failed: "@,
        ),
{
    match outcome {
        ReadOutcome::Found(text) => Ok(text),
        ReadOutcome::Missing => Err("Telegram token missing".to_owned()),
        ReadOutcome::Failed(e) => {
            let text = join2("get token failed: ", e.as_str());
            assert(text@.subrange(0, "get token failed: "@.len() as int) =~= "get token failed: "@);
            Err(text)
        },
    }
}

/// Opens the entry of the bot token: the result is what the keychain's
/// answer amounts to.
fn telegram_entry() -> (r: Result<keyring::Entry, String>)
    ensures
        exists|opened: Result<keyring::Entry, keyring::Error>|
            entry_view(r) == #[trigger] entry_outcome(opened),
        r matches Err(e) ==> starts_with(e@, "keyring entry error: "@),
{
    let opened = open_entry("local-ai-hub", "telegram-bot-token");
    let ghost answer = opened;
    let r = entry_of(opened);
    assert(entry_view(r) == entry_outcome(answer));
    r
}

/// Reads the password of `entry`: the result is what the keychain's answer
/// amounts to.
fn read_entry(entry: &keyring::Entry) -> (r: ReadOutcome)
    ensures
        exists|got: Result<String, keyring::Error>| r@ == #[trigger] reading(got),
{
    let got = read_password(entry);
    let ghost answer = got;
    let r = reading_of(got);
    assert(r@ == reading(answer));
    r
}

/// Stores the token in the keychain, without the whitespace around it, and
/// reads it back to make sure. A blank token is refused before the keychain
/// is touched; success means that the keychain gave the token back.
pub fn telegram_set_token(token: &str) -> (r: Result<(), String>)
    ensures
        trim(token@).len() == 0 ==> (r matches Err(e) && e@ == "token is empty"@),
        r matches Err(e) ==> {
            ||| e@ == "token is empty"@ && trim(token@).len() == 0
            ||| starts_with(e@, "keyring entry error: "@)
            ||| starts_with(e@, "set token failed: "@)
            ||| starts_with(e@, "read-back failed: "@)
            ||| e@ == "token read-back verification failed"@
        },
{
    let token = match check_token(token) {
        Ok(t) => t,
        Err(e) => {
            return Err(e);
        },
    };
    let entry = match telegram_entry() {
        Ok(entry) => entry,
        Err(e) => {
            return Err(e);
        },
    };
    match store_password(&entry, token.as_str()) {
        Ok(()) => {},
        Err(e) => {
            let text = join2("set token failed: ", complaint(&e).as_str());
            assert(text@.subrange(0, "set token failed: "@.len() as int) =~= "set token failed: "@);
            return Err(text);
        },
    }
    let read_back = match read_password(&entry) {
        Ok(text) => text,
        Err(e) => {
            let text = join2("read-back failed: ", complaint(&e).as_str());
            assert(text@.subrange(0, "read-back failed: "@.len() as int) =~= "read-back failed: "@);
            return Err(text);
        },
    };
    verify_read_back(token.as_str(), read_back.as_str())
}

/// Whether a token is stored in the keychain.
pub fn keychain_token_status() -> (r: Result<SecretStatus, String>)
    ensures
        r matches Ok(status) ==> status.mode@ == "keychain"@,
        r matches Err(e) ==> starts_with(e@, "keyring entry error: "@),
{
    match telegram_entry() {
        Ok(entry) => Ok(status_of_read("keychain", read_entry(&entry))),
        Err(e) => Err(e),
    }
}

/// The token that is stored in the keychain: where the keychain opens the
/// entry, the token of what it reads there; else the error of the entry.
pub fn keychain_get_token() -> (r: Result<String, String>)
    ensures
        token_from_keychain(text_result(r)),
        r matches Err(e) ==> starts_with(e@, "keyring entry error: "@) || e@
            == "Telegram token missing"@ || starts_with(e@, "get token failed: "@),
{
    let opened = telegram_entry();
    proof {
        let answer = choose|answer: Result<keyring::Entry, keyring::Error>|
            entry_view(opened) == #[trigger] entry_outcome(answer);
        if let Err(k) = answer {
            assert(entry_view(opened) == Err::<keyring::Entry, Seq<char>>(entry_error(k)));
        }
    }
    match opened {
        Ok(entry) => {
            let outcome = read_entry(&entry);
            let r = token_of_read(outcome);
            proof {
                let got = choose|got: Result<String, keyring::Error>|
                    outcome@ == #[trigger] reading(got);
                assert(text_result(r) == token_in(reading(got)));
            }
            r
        },
        Err(e) => Err(e),
    }
}

/// Removes the token from the keychain: where the keychain opens the entry,
/// the removal is tried and counts as done whatever comes of it, so that
/// there being no token is no error; else the error of the entry.
pub fn keychain_delete_token() -> (r: Result<(), String>)
    ensures
        removal_from_keychain(done_view(r)),
        r matches Err(e) ==> starts_with(e@, "keyring entry error: "@),
{
    let opened = telegram_entry();
    proof {
        let answer = choose|answer: Result<keyring::Entry, keyring::Error>|
            entry_view(opened) == #[trigger] entry_outcome(answer);
        assert(entry_view(opened) == entry_outcome(answer));
    }
    match opened {
        Ok(entry) => {
            let _ = delete_password(&entry);
            Ok(())
        },
        Err(e) => Err(e),
    }
}

} // verus!
