//! Where the master key is kept, and how it is found or made.

use crate::crypto::{base64_text, key_of_base64, CryptoError, CryptoErrorView, MasterKey};
use crate::text::{trim, trimmed};
use std::path::PathBuf;
use vstd::prelude::*;

verus! {

/// A path of the file system.
#[verifier::external_type_specification]
#[verifier::external_body]
pub struct ExPathBuf(PathBuf);

/// `PathBuf::clone` gives a path that is equal to its argument.
pub assume_specification[ <PathBuf as Clone>::clone ](path: &PathBuf) -> (r: PathBuf)
    ensures
        r == *path,
;

/// Keeps the master key in the system keyring, or in a file of the configuration directory.
#[derive(Debug)]
pub struct KeyManager {
    config_dir: PathBuf,
}

impl Clone for KeyManager {
    fn clone(&self) -> (r: KeyManager)
        ensures
            r.dir() == self.dir(),
    {
        KeyManager { config_dir: self.config_dir.clone() }
    }
}

impl KeyManager {
    /// The configuration directory.
    pub closed spec fn dir(self) -> PathBuf {
        self.config_dir
    }

    /// A manager for a configuration directory.
    pub fn with_config_dir<P: Into<PathBuf>>(config_dir: P) -> (r: KeyManager)
        ensures
            call_ensures(<P as Into<PathBuf>>::into, (config_dir,), r.dir()),
    {
        KeyManager { config_dir: config_dir.into() }
    }

    /// The configuration directory.
    pub fn config_dir(&self) -> (r: &PathBuf)
        ensures
            *r == self.dir(),
    {
        &self.config_dir
    }
}

/// The name of the keyring's service.
pub fn keyring_service() -> (r: &'static str)
    ensures
        r@ == "envctl"@,
{
    "envctl"
}

/// The name of the keyring's account.
pub fn keyring_account() -> (r: &'static str)
    ensures
        r@ == "master-key"@,
{
    "master-key"
}

/// The name of the key file in the configuration directory.
pub fn fallback_file_name() -> (r: &'static str)
    ensures
        r@ == "master-key"@,
{
    "master-key"
}

/// The name of the file that says where the key is kept.
pub fn meta_file_name() -> (r: &'static str)
    ensures
        r@ == "keyring-meta.json"@,
{
    "keyring-meta.json"
}

/// How far the search for the key has come.
#[derive(Debug, Clone, Copy, PartialEq, Eq, Structural)]
pub enum KeyStage {
    /// The keyring is asked for a key.
    ReadKeyring,
    /// It is asked whether there is a key file.
    LookForFile,
    /// The key file is read.
    ReadFile,
    /// A new key is put into the keyring.
    WriteKeyring,
    /// A new key is put into the key file.
    WriteFile,
    /// It is written down that the key is in the keyring.
    NoteKeyring,
    /// It is written down that the key is in the key file.
    NoteFile,
}

/// What is to be done next.
#[derive(Debug, PartialEq, Eq)]
pub enum KeyAction {
    ReadKeyring,
    LookForFile,
    ReadFile,
    WriteKeyring(String),
    WriteFile(String),
    WriteMeta(String),
}

/// `KeyAction` with its texts as character sequences.
pub enum KeyActionView {
    ReadKeyring,
    LookForFile,
    ReadFile,
    WriteKeyring(Seq<char>),
    WriteFile(Seq<char>),
    WriteMeta(Seq<char>),
}

impl View for KeyAction {
    type V = KeyActionView;

    open spec fn view(&self) -> KeyActionView {
        match *self {
            KeyAction::ReadKeyring => KeyActionView::ReadKeyring,
            KeyAction::LookForFile => KeyActionView::LookForFile,
            KeyAction::ReadFile => KeyActionView::ReadFile,
            KeyAction::WriteKeyring(text) => KeyActionView::WriteKeyring(text@),
            KeyAction::WriteFile(text) => KeyActionView::WriteFile(text@),
            KeyAction::WriteMeta(backend) => KeyActionView::WriteMeta(backend@),
        }
    }
}

/// What came of an action.
#[derive(Debug)]
pub enum KeyEvent {
    /// A text was read, or could not be.
    Text(Result<String, CryptoError>),
    /// The key file is there or not.
    Found(bool),
    /// A text was written, or could not be.
    Written(Result<(), CryptoError>),
}

/// `KeyEvent` with its texts as character sequences.
pub enum KeyEventView {
    Text(Result<Seq<char>, CryptoErrorView>),
    Found(bool),
    Written(Result<(), CryptoErrorView>),
}

impl View for KeyEvent {
    type V = KeyEventView;

    open spec fn view(&self) -> KeyEventView {
        match *self {
            KeyEvent::Text(Ok(text)) => KeyEventView::Text(Ok(text@)),
            KeyEvent::Text(Err(error)) => KeyEventView::Text(Err(error@)),
            KeyEvent::Found(found) => KeyEventView::Found(found),
            KeyEvent::Written(Ok(_)) => KeyEventView::Written(Ok(())),
            KeyEvent::Written(Err(error)) => KeyEventView::Written(Err(error@)),
        }
    }
}

/// The search for the master key: first in the keyring, and in the key file if the keyring
/// has none. Where neither has one, a new key goes into the keyring, or into the key file if
/// the keyring refuses it.
#[derive(Debug)]
pub struct KeySearch {
    stage: KeyStage,
    spare: MasterKey,
}

/// `KeySearch` with its key as bytes.
pub struct KeySearchView {
    pub stage: KeyStage,
    pub spare: Seq<u8>,
}

impl View for KeySearch {
    type V = KeySearchView;

    closed spec fn view(&self) -> KeySearchView {
        KeySearchView { stage: self.stage, spare: self.spare@ }
    }
}

/// A search that goes on, or its end.
#[derive(Debug)]
pub enum KeyStep {
    Next(KeySearch),
    Done(Result<MasterKey, CryptoError>),
}

/// `KeyStep` over views.
pub enum KeyStepView {
    Next(KeySearchView),
    Done(Result<Seq<u8>, CryptoErrorView>),
}

impl View for KeyStep {
    type V = KeyStepView;

    open spec fn view(&self) -> KeyStepView {
        match *self {
            KeyStep::Next(search) => KeyStepView::Next(search@),
            KeyStep::Done(Ok(key)) => KeyStepView::Done(Ok(key@)),
            KeyStep::Done(Err(error)) => KeyStepView::Done(Err(error@)),
        }
    }
}

/// Whether a key is read back from its text, as it stands in the keyring or in the key file.
pub open spec fn written_key_reads(key: Seq<u8>) -> bool {
    &&& key_of_base64(base64_text(key)) == Ok::<Seq<u8>, CryptoErrorView>(key)
    &&& key_of_base64(trimmed(base64_text(key))) == Ok::<Seq<u8>, CryptoErrorView>(key)
}

impl KeySearchView {
    /// The search at another stage.
    pub open spec fn at(self, stage: KeyStage) -> KeyStepView {
        KeyStepView::Next(KeySearchView { stage, ..self })
    }

    /// What is to be done next.
    pub open spec fn action(self) -> KeyActionView {
        match self.stage {
            KeyStage::ReadKeyring => KeyActionView::ReadKeyring,
            KeyStage::LookForFile => KeyActionView::LookForFile,
            KeyStage::ReadFile => KeyActionView::ReadFile,
            KeyStage::WriteKeyring => KeyActionView::WriteKeyring(base64_text(self.spare)),
            KeyStage::WriteFile => KeyActionView::WriteFile(base64_text(self.spare)),
            KeyStage::NoteKeyring => KeyActionView::WriteMeta("keyring"@),
            KeyStage::NoteFile => KeyActionView::WriteMeta("fallback-file"@),
        }
    }

    /// What follows an event. An event that does not answer the action leaves the search
    /// where it is.
    pub open spec fn after(self, event: KeyEventView) -> KeyStepView {
        match (self.stage, event) {
            (KeyStage::ReadKeyring, KeyEventView::Text(Ok(text))) => match key_of_base64(text) {
                Ok(key) => KeyStepView::Done(Ok(key)),
                Err(_) => self.at(KeyStage::LookForFile),
            },
            (KeyStage::ReadKeyring, KeyEventView::Text(Err(_))) => self.at(KeyStage::LookForFile),
            (KeyStage::LookForFile, KeyEventView::Found(true)) => self.at(KeyStage::ReadFile),
            (KeyStage::LookForFile, KeyEventView::Found(false)) => self.at(KeyStage::WriteKeyring),
            (KeyStage::ReadFile, KeyEventView::Text(Ok(text))) => KeyStepView::Done(
                key_of_base64(trimmed(text)),
            ),
            (KeyStage::ReadFile, KeyEventView::Text(Err(error))) => KeyStepView::Done(Err(error)),
            (KeyStage::WriteKeyring, KeyEventView::Written(Ok(_))) => self.at(KeyStage::NoteKeyring),
            (KeyStage::WriteKeyring, KeyEventView::Written(Err(_))) => self.at(KeyStage::WriteFile),
            (KeyStage::WriteFile, KeyEventView::Written(Ok(_))) => self.at(KeyStage::NoteFile),
            (KeyStage::WriteFile, KeyEventView::Written(Err(error))) => KeyStepView::Done(
                Err(error),
            ),
            (KeyStage::NoteKeyring, KeyEventView::Written(Ok(_))) => KeyStepView::Done(
                Ok(self.spare),
            ),
            (KeyStage::NoteFile, KeyEventView::Written(Ok(_))) => KeyStepView::Done(Ok(self.spare)),
            (KeyStage::NoteKeyring, KeyEventView::Written(Err(error))) => KeyStepView::Done(
                Err(error),
            ),
            (KeyStage::NoteFile, KeyEventView::Written(Err(error))) => KeyStepView::Done(
                Err(error),
            ),
            _ => KeyStepView::Next(self),
        }
    }
}

impl KeySearch {
    /// The start of a search that ends with the given key if there is none yet.
    pub fn with_spare(spare: MasterKey) -> (r: KeySearch)
        ensures
            r@ == (KeySearchView { stage: KeyStage::ReadKeyring, spare: spare@ }),
    {
        KeySearch { stage: KeyStage::ReadKeyring, spare }
    }

    /// The start of a search that ends with a new key if there is none yet.
    pub fn new() -> (r: KeySearch)
        ensures
            r@.stage == KeyStage::ReadKeyring,
    {
        KeySearch::with_spare(MasterKey::generate())
    }

    /// What is to be done next. From a text that is to be written the spare key is read back.
    pub fn action(&self) -> (r: KeyAction)
        ensures
            r@ == self@.action(),
            self@.stage is WriteKeyring || self@.stage is WriteFile ==> written_key_reads(
                self@.spare,
            ),
    {
        match self.stage {
            KeyStage::ReadKeyring => KeyAction::ReadKeyring,
            KeyStage::LookForFile => KeyAction::LookForFile,
            KeyStage::ReadFile => KeyAction::ReadFile,
            KeyStage::WriteKeyring => KeyAction::WriteKeyring(self.spare.to_base64()),
            KeyStage::WriteFile => KeyAction::WriteFile(self.spare.to_base64()),
            KeyStage::NoteKeyring => KeyAction::WriteMeta("keyring".to_owned()),
            KeyStage::NoteFile => KeyAction::WriteMeta("fallback-file".to_owned()),
        }
    }

    fn at(self, stage: KeyStage) -> (r: KeyStep)
        ensures
            r@ == self@.at(stage),
    {
        KeyStep::Next(KeySearch { stage, spare: self.spare })
    }

    /// Goes on after an event.
    pub fn after(self, event: KeyEvent) -> (r: KeyStep)
        ensures
            r@ == self@.after(event@),
    {
        match (self.stage, event) {
            (KeyStage::ReadKeyring, KeyEvent::Text(Ok(text))) => match MasterKey::from_base64(
                text.as_str(),
            ) {
                Ok(key) => KeyStep::Done(Ok(key)),
                Err(_) => self.at(KeyStage::LookForFile),
            },
            (KeyStage::ReadKeyring, KeyEvent::Text(Err(_))) => self.at(KeyStage::LookForFile),
            (KeyStage::LookForFile, KeyEvent::Found(found)) => if found {
                self.at(KeyStage::ReadFile)
            } else {
                self.at(KeyStage::WriteKeyring)
            },
            (KeyStage::ReadFile, KeyEvent::Text(Ok(text))) => KeyStep::Done(
                MasterKey::from_base64(trim(text.as_str()).as_str()),
            ),
            (KeyStage::ReadFile, KeyEvent::Text(Err(error))) => KeyStep::Done(Err(error)),
            (KeyStage::WriteKeyring, KeyEvent::Written(Ok(_))) => self.at(KeyStage::NoteKeyring),
            (KeyStage::WriteKeyring, KeyEvent::Written(Err(_))) => self.at(KeyStage::WriteFile),
            (KeyStage::WriteFile, KeyEvent::Written(Ok(_))) => self.at(KeyStage::NoteFile),
            (KeyStage::WriteFile, KeyEvent::Written(Err(error))) => KeyStep::Done(Err(error)),
            (KeyStage::NoteKeyring, KeyEvent::Written(Ok(_))) => KeyStep::Done(Ok(self.spare)),
            (KeyStage::NoteFile, KeyEvent::Written(Ok(_))) => KeyStep::Done(Ok(self.spare)),
            (KeyStage::NoteKeyring, KeyEvent::Written(Err(error))) => KeyStep::Done(Err(error)),
            (KeyStage::NoteFile, KeyEvent::Written(Err(error))) => KeyStep::Done(Err(error)),
            _ => KeyStep::Next(self),
        }
    }
}

/// Where keys are kept: the text in the keyring, whether the keyring takes a text, the text of
/// the key file, and where the key is said to be kept.
pub struct KeyPlaces {
    pub keyring: Option<Seq<char>>,
    pub keyring_takes: bool,
    pub file: Option<Seq<char>>,
    pub note: Option<Seq<char>>,
    pub refusal: CryptoErrorView,
}

impl KeyPlaces {
    /// The places after an action, and what came of it. The configuration directory can be
    /// written.
    pub open spec fn performed(self, action: KeyActionView) -> (KeyPlaces, KeyEventView) {
        match action {
            KeyActionView::ReadKeyring => (
                self,
                KeyEventView::Text(
                    match self.keyring {
                        Some(text) => Ok(text),
                        None => Err(self.refusal),
                    },
                ),
            ),
            KeyActionView::LookForFile => (self, KeyEventView::Found(self.file is Some)),
            KeyActionView::ReadFile => (
                self,
                KeyEventView::Text(
                    match self.file {
                        Some(text) => Ok(text),
                        None => Err(self.refusal),
                    },
                ),
            ),
            KeyActionView::WriteKeyring(text) => if self.keyring_takes {
                (
                    KeyPlaces { keyring: Some(text), ..self },
                    KeyEventView::Written(Ok(())),
                )
            } else {
                (self, KeyEventView::Written(Err(self.refusal)))
            },
            KeyActionView::WriteFile(text) => (
                KeyPlaces { file: Some(text), ..self },
                KeyEventView::Written(Ok(())),
            ),
            KeyActionView::WriteMeta(place) => (
                KeyPlaces { note: Some(place), ..self },
                KeyEventView::Written(Ok(())),
            ),
        }
    }

    /// The places after a search has run for a number of steps, and how it ended, if it did.
    pub open spec fn searched(self, search: KeySearchView, steps: nat) -> (
        KeyPlaces,
        Option<Result<Seq<u8>, CryptoErrorView>>,
    )
        decreases steps,
    {
        if steps == 0 {
            (self, None)
        } else {
            let (next, event) = self.performed(search.action());
            match search.after(event) {
                KeyStepView::Done(result) => (next, Some(result)),
                KeyStepView::Next(further) => next.searched(further, (steps - 1) as nat),
            }
        }
    }

    /// The key that the keyring holds.
    pub open spec fn keyring_key(self) -> Option<Seq<u8>> {
        match self.keyring {
            Some(text) => match key_of_base64(text) {
                Ok(key) => Some(key),
                Err(_) => None,
            },
            None => None,
        }
    }
}

/// A search has ended after five steps. A key in the keyring is taken, whatever the key file
/// holds; otherwise a key file decides, and is left as it is even if it holds no key. Where
/// there is neither, the spare key is taken, and kept in the keyring, or in the key file if the
/// keyring does not take it. A second search with another spare key ends with the same key and
/// changes nothing.
pub proof fn law_search_ends_with_the_kept_key(
    places: KeyPlaces,
    spare: Seq<u8>,
    other: Seq<u8>,
    steps: nat,
)
    requires
        written_key_reads(spare),
        steps >= 5,
    ensures
        ({
            let start = KeySearchView { stage: KeyStage::ReadKeyring, spare };
            let again = KeySearchView { stage: KeyStage::ReadKeyring, spare: other };
            let (after, end) = places.searched(start, steps);
            &&& end is Some
            &&& places.keyring_key() matches Some(key) ==> end == Some(
                Ok::<Seq<u8>, CryptoErrorView>(key),
            ) && after == places
            &&& places.keyring_key() is None ==> match places.file {
                Some(text) => end == Some(key_of_base64(trimmed(text))) && after == places,
                None => {
                    &&& end == Some(Ok::<Seq<u8>, CryptoErrorView>(spare))
                    &&& places.keyring_takes ==> after == (KeyPlaces {
                        keyring: Some(base64_text(spare)),
                        note: Some("keyring"@),
                        ..places
                    })
                    &&& !places.keyring_takes ==> after == (KeyPlaces {
                        file: Some(base64_text(spare)),
                        note: Some("fallback-file"@),
                        ..places
                    })
                },
            }
            &&& end->0 is Ok ==> after.searched(again, steps) == (after, end)
        }),
{
    let start = KeySearchView { stage: KeyStage::ReadKeyring, spare };
    let again = KeySearchView { stage: KeyStage::ReadKeyring, spare: other };
    reveal_with_fuel(KeyPlaces::searched, 6);
    let after = places.searched(start, steps).0;
    assert(after.searched(again, steps).1 is Some);
}

} // verus!
