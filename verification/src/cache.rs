//! The persisted state: where it lies, the frequency map, and the two
//! secrets. The files themselves are read and written by the embedding
//! program; here their contents are plain values.

use vstd::prelude::*;
use vstd::string::{StrSliceExecFns, StringExecFns};
use vstd::utf8::encode_utf8;
use crate::cipher::{is_sealed, max_plaintext_len, opened_blob, SecretCipher};
use crate::error::{CipherError, SecretKind, ServiceError};
use crate::frequency::{recorded, score_of, FrequencyMap};
use crate::models::ModelFrequency;

verus! {

/// The name of the file that holds the key of the cipher.
pub const KEY_FILE: &'static str = "encryption.key";

/// The name of the file that holds the encrypted credential.
pub const API_KEYS_FILE: &'static str = "api_keys.enc";

/// The name of the file that holds the encrypted endpoint URL.
pub const API_URL_FILE: &'static str = "api_url.enc";

/// The name of the file that holds the frequency map.
pub const FREQUENCY_FILE: &'static str = "frequency.json";

/// The name of the environment variable that overrides the cache
/// directory.
pub const CACHE_DIR_VARIABLE: &'static str = "CHATAICACHE";

/// What the environment says of where the cache directory lies.
#[derive(Debug)]
pub struct CacheEnv {
    /// The value of the override variable, if it is set.
    pub cache_override: Option<String>,
    /// Whether the platform is Windows.
    pub windows: bool,
    /// The value of `LOCALAPPDATA`, if it is set.
    pub local_app_data: Option<String>,
    /// The value of `USERPROFILE`, if it is set.
    pub user_profile: Option<String>,
    /// The value of `HOME`, if it is set.
    pub home: Option<String>,
}

/// Whether `c` separates the components of a path.
pub open spec fn is_separator(c: char, windows: bool) -> bool {
    c == '/' || (windows && c == '\\')
}

/// The separator that is put between two components.
pub open spec fn separator(windows: bool) -> char {
    if windows {
        '\\'
    } else {
        '/'
    }
}

/// The path `base` with the relative path `name` joined to it: a
/// separator stands between them unless `base` is empty or ends with one.
pub open spec fn joined(base: Seq<char>, name: Seq<char>, windows: bool) -> Seq<char> {
    if base.len() == 0 || is_separator(base.last(), windows) {
        base + name
    } else {
        base.push(separator(windows)) + name
    }
}

/// The text of an optional value, or `fallback` where it is not there.
pub open spec fn text_or(value: Option<String>, fallback: Seq<char>) -> Seq<char> {
    match value {
        Some(text) => text@,
        None => fallback,
    }
}

/// The cache directory. The override, where it is set, is the directory
/// as it stands. Otherwise, on Windows it is `chat-ai` under the local
/// application data, which is taken from `LOCALAPPDATA`, or else is
/// `AppData\Local` under the user profile, or under `C:\` without one;
/// elsewhere it is `.cache/chat-ai` under the home directory, or under
/// `/` without one.
pub open spec fn cache_dir_of(env: CacheEnv) -> Seq<char> {
    match env.cache_override {
        Some(dir) => dir@,
        None => if env.windows {
            match env.local_app_data {
                Some(root) => joined(root@, "chat-ai"@, true),
                None => joined(
                    joined(joined(text_or(env.user_profile, "C:\\"@), "AppData"@, true), "Local"@, true),
                    "chat-ai"@,
                    true,
                ),
            }
        } else {
            joined(text_or(env.home, "/"@), ".cache/chat-ai"@, false)
        },
    }
}

/// Joins the relative path `name` to `base`.
pub fn join_path(base: &str, name: &str, windows: bool) -> (path: String)
    ensures
        path@ == joined(base@, name@, windows),
{
    let length: usize = base.unicode_len();
    let mut path = String::from_str(base);
    if length > 0 {
        let last = base.get_char(length - 1);
        if !(last == '/' || (windows && last == '\\')) {
            let between: &str = if windows {
                "\\"
            } else {
                "/"
            };
            proof {
                reveal_strlit("\\");
                reveal_strlit("/");
                assert(between@ =~= seq![separator(windows)]);
                assert(base@ + between@ =~= base@.push(separator(windows)));
            }
            path.append(between);
        }
    }
    path.append(name);
    path
}

/// The text of an optional value, or `fallback` where it is not there.
fn text_or_else<'a>(value: &'a Option<String>, fallback: &'a str) -> (text: &'a str)
    ensures
        text@ == text_or(*value, fallback@),
{
    match value {
        Some(text) => text.as_str(),
        None => fallback,
    }
}

/// Resolves the cache directory from what the environment says. The
/// directory is not made here; it is made when something is written.
pub fn get_cache_dir(env: &CacheEnv) -> (dir: String)
    ensures
        dir@ == cache_dir_of(*env),
{
    match &env.cache_override {
        Some(dir) => dir.clone(),
        None => {
            if env.windows {
                match &env.local_app_data {
                    Some(root) => join_path(root.as_str(), "chat-ai", true),
                    None => {
                        let profile = text_or_else(&env.user_profile, "C:\\");
                        let app_data = join_path(profile, "AppData", true);
                        let local = join_path(app_data.as_str(), "Local", true);
                        join_path(local.as_str(), "chat-ai", true)
                    },
                }
            } else {
                join_path(text_or_else(&env.home, "/"), ".cache/chat-ai", false)
            }
        },
    }
}

/// Records one more attempt with `model` in the frequency map: a success
/// adds 1 to its score, counted from 0 for a model without an entry; a
/// failure makes its score -1 whatever it was.
pub fn update_frequency(frequencies: &mut FrequencyMap, model: String, success: bool)
    requires
        old(frequencies).wf(),
        success ==> score_of(old(frequencies)@, model@) != Some(i32::MAX as int),
    ensures
        final(frequencies)@ == recorded(old(frequencies)@, model@, success),
        final(frequencies).wf(),
{
    frequencies.record_outcome(model, success);
}

/// The frequency map as it is to be persisted: a copy of its entries in
/// their order.
pub fn save_frequencies(frequencies: &FrequencyMap) -> (snapshot: ModelFrequency)
    ensures
        snapshot.frequencies@ == frequencies@,
{
    ModelFrequency { frequencies: frequencies.clone() }
}

/// The frequency map that a persisted one restores: the same entries, or
/// none where nothing usable was persisted.
pub fn load_frequencies(stored: Option<ModelFrequency>) -> (frequencies: FrequencyMap)
    requires
        stored matches Some(snapshot) ==> snapshot.frequencies.wf(),
    ensures
        frequencies.wf(),
        match stored {
            Some(snapshot) => frequencies@ == snapshot.frequencies@,
            None => frequencies@ == Seq::<crate::frequency::ScoreEntry>::empty(),
        },
{
    match stored {
        Some(snapshot) => snapshot.frequencies,
        None => FrequencyMap::new(),
    }
}

/// The name of the file that holds the secret of the given kind.
pub fn secret_file(kind: SecretKind) -> (name: &'static str)
    ensures
        name@ == (match kind {
            SecretKind::Credential => API_KEYS_FILE@,
            SecretKind::EndpointUrl => API_URL_FILE@,
        }),
{
    match kind {
        SecretKind::Credential => API_KEYS_FILE,
        SecretKind::EndpointUrl => API_URL_FILE,
    }
}

/// The two secret files as they stand: for each kind the stored text, or
/// nothing where the file does not exist.
#[derive(Debug)]
pub struct SecretStore {
    /// The contents of the credential file.
    pub credential: Option<Vec<u8>>,
    /// The contents of the endpoint URL file.
    pub endpoint_url: Option<Vec<u8>>,
}

impl SecretStore {
    /// The stored text of the given kind, if its file exists.
    pub open spec fn slot(self, kind: SecretKind) -> Option<Seq<u8>> {
        match kind {
            SecretKind::Credential => match self.credential {
                Some(blob) => Some(blob@),
                None => None,
            },
            SecretKind::EndpointUrl => match self.endpoint_url {
                Some(blob) => Some(blob@),
                None => None,
            },
        }
    }

    /// The other kind of secret.
    pub open spec fn other(kind: SecretKind) -> SecretKind {
        match kind {
            SecretKind::Credential => SecretKind::EndpointUrl,
            SecretKind::EndpointUrl => SecretKind::Credential,
        }
    }

    /// A store in which no secret was saved.
    pub fn new() -> (store: SecretStore)
        ensures
            store.slot(SecretKind::Credential) is None,
            store.slot(SecretKind::EndpointUrl) is None,
    {
        SecretStore { credential: None, endpoint_url: None }
    }

    /// The stored text of the given kind, if its file exists.
    pub fn blob(&self, kind: SecretKind) -> (blob: Option<&Vec<u8>>)
        ensures
            match blob {
                Some(text) => self.slot(kind) == Some(text@),
                None => self.slot(kind) is None,
            },
    {
        match kind {
            SecretKind::Credential => self.credential.as_ref(),
            SecretKind::EndpointUrl => self.endpoint_url.as_ref(),
        }
    }

    /// Saves `value` as the secret of the given kind, in place of what
    /// was stored. An empty value is refused with `ConfigurationError`,
    /// and one that is too long to encrypt with `EncryptionFailed`; both
    /// leave the store as it was. The other secret is not touched.
    ///
    /// # Panics
    ///
    /// Panics as `SecretCipher::encrypt` does, where no nonce can be
    /// drawn.
    pub fn save(&mut self, cipher: &SecretCipher, kind: SecretKind, value: &str) -> (done: Result<
        (),
        ServiceError,
    >)
        requires
            cipher.wf(),
        ensures
            is_saved(*old(self), cipher.key(), kind, value@, *final(self), done),
    {
        if value.is_empty() {
            return Err(ServiceError::ConfigurationError);
        }
        match cipher.encrypt(value) {
            Ok(blob) => {
                match kind {
                    SecretKind::Credential => {
                        self.credential = Some(blob);
                    },
                    SecretKind::EndpointUrl => {
                        self.endpoint_url = Some(blob);
                    },
                }
                Ok(())
            },
            Err(e) => Err(ServiceError::Cipher(e)),
        }
    }

    /// Loads the secret of the given kind. A secret that was never saved
    /// is `NotConfigured`; a stored text that does not decrypt is the
    /// error of the cipher that tells what is wrong with it.
    pub fn load(&self, cipher: &SecretCipher, kind: SecretKind) -> (value: Result<
        String,
        ServiceError,
    >)
        requires
            cipher.wf(),
        ensures
            match value {
                Ok(text) => loaded(*self, cipher.key(), kind) == Ok::<Seq<char>, ServiceError>(text@),
                Err(e) => loaded(*self, cipher.key(), kind) == Err::<Seq<char>, ServiceError>(e),
            },
    {
        match self.blob(kind) {
            None => Err(ServiceError::NotConfigured(kind)),
            Some(blob) => match cipher.decrypt(blob.as_slice()) {
                Ok(text) => Ok(text),
                Err(e) => Err(ServiceError::Cipher(e)),
            },
        }
    }

    /// Deletes the secret of the given kind. Nothing is wrong with
    /// deleting a secret that was never saved. The other secret is not
    /// touched.
    pub fn delete(&mut self, kind: SecretKind) -> (done: Result<(), ServiceError>)
        ensures
            done is Ok,
            final(self).slot(kind) is None,
            final(self).slot(Self::other(kind)) == old(self).slot(Self::other(kind)),
    {
        match kind {
            SecretKind::Credential => {
                self.credential = None;
            },
            SecretKind::EndpointUrl => {
                self.endpoint_url = None;
            },
        }
        Ok(())
    }
}

/// Whether `after` and `done` are what saving `value` as the secret of
/// the given kind makes of the store `before`, under the key `key`. An
/// empty value is refused with `ConfigurationError`, and one that is too
/// long to encrypt with `EncryptionFailed`; both leave the store as it
/// was. Otherwise the stored text of the kind is a sealing of the value.
/// The other secret is never touched.
pub open spec fn is_saved(
    before: SecretStore,
    key: Seq<u8>,
    kind: SecretKind,
    value: Seq<char>,
    after: SecretStore,
    done: Result<(), ServiceError>,
) -> bool {
    &&& after.slot(SecretStore::other(kind)) == before.slot(SecretStore::other(kind))
    &&& match done {
        Ok(_) => {
            &&& value.len() > 0
            &&& after.slot(kind) matches Some(blob)
            &&& is_sealed(key, value, blob)
        },
        Err(e) => {
            &&& after.slot(kind) == before.slot(kind)
            &&& e == (if value.len() == 0 {
                ServiceError::ConfigurationError
            } else {
                ServiceError::Cipher(CipherError::EncryptionFailed)
            })
            &&& value.len() == 0 || encode_utf8(value).len() > max_plaintext_len()
        },
    }
}

/// What loading the secret of the given kind from `store` gives under
/// the key `key`.
pub open spec fn loaded(store: SecretStore, key: Seq<u8>, kind: SecretKind) -> Result<
    Seq<char>,
    ServiceError,
> {
    match store.slot(kind) {
        None => Err(ServiceError::NotConfigured(kind)),
        Some(blob) => match opened_blob(key, blob) {
            Ok(text) => Ok(text),
            Err(e) => Err(ServiceError::Cipher(e)),
        },
    }
}

/// A secret that was saved is loaded as it was saved, and the other
/// secret is loaded as before.
pub proof fn lemma_save_then_load(
    before: SecretStore,
    key: Seq<u8>,
    kind: SecretKind,
    value: Seq<char>,
    after: SecretStore,
)
    requires
        is_saved(before, key, kind, value, after, Ok(())),
    ensures
        loaded(after, key, kind) == Ok::<Seq<char>, ServiceError>(value),
        loaded(after, key, SecretStore::other(kind)) == loaded(before, key, SecretStore::other(kind)),
{
}

/// Loading tells a secret that is not there from one that is damaged: it
/// gives `NotConfigured` exactly where nothing is stored, and a stored
/// text that does not decrypt gives the error of the cipher.
pub proof fn lemma_missing_is_not_damaged(store: SecretStore, key: Seq<u8>, kind: SecretKind)
    ensures
        store.slot(kind) is None <==> loaded(store, key, kind) == Err::<Seq<char>, ServiceError>(
            ServiceError::NotConfigured(kind),
        ),
        store.slot(kind) is Some && loaded(store, key, kind) is Err ==> loaded(
            store,
            key,
            kind,
        ) matches Err(ServiceError::Cipher(_)),
{
}

/// Encrypts the credential and stores it.
///
/// # Panics
///
/// Panics as `SecretCipher::encrypt` does, where no nonce can be drawn.
pub fn encrypt_api_key(cipher: &SecretCipher, store: &mut SecretStore, api_key: &str) -> (done:
    Result<(), ServiceError>)
    requires
        cipher.wf(),
    ensures
        is_saved(*old(store), cipher.key(), SecretKind::Credential, api_key@, *final(store), done),
{
    store.save(cipher, SecretKind::Credential, api_key)
}

/// Decrypts the stored credential.
pub fn decrypt_api_key(cipher: &SecretCipher, store: &SecretStore) -> (api_key: Result<
    String,
    ServiceError,
>)
    requires
        cipher.wf(),
    ensures
        match api_key {
            Ok(text) => loaded(*store, cipher.key(), SecretKind::Credential) == Ok::<
                Seq<char>,
                ServiceError,
            >(text@),
            Err(e) => loaded(*store, cipher.key(), SecretKind::Credential) == Err::<
                Seq<char>,
                ServiceError,
            >(e),
        },
{
    store.load(cipher, SecretKind::Credential)
}

/// Encrypts the endpoint URL and stores it.
///
/// # Panics
///
/// Panics as `SecretCipher::encrypt` does, where no nonce can be drawn.
pub fn encrypt_api_url(cipher: &SecretCipher, store: &mut SecretStore, api_url: &str) -> (done:
    Result<(), ServiceError>)
    requires
        cipher.wf(),
    ensures
        is_saved(*old(store), cipher.key(), SecretKind::EndpointUrl, api_url@, *final(store), done),
{
    store.save(cipher, SecretKind::EndpointUrl, api_url)
}

/// Decrypts the stored endpoint URL.
pub fn decrypt_api_url(cipher: &SecretCipher, store: &SecretStore) -> (api_url: Result<
    String,
    ServiceError,
>)
    requires
        cipher.wf(),
    ensures
        match api_url {
            Ok(text) => loaded(*store, cipher.key(), SecretKind::EndpointUrl) == Ok::<
                Seq<char>,
                ServiceError,
            >(text@),
            Err(e) => loaded(*store, cipher.key(), SecretKind::EndpointUrl) == Err::<
                Seq<char>,
                ServiceError,
            >(e),
        },
{
    store.load(cipher, SecretKind::EndpointUrl)
}

/// Deletes the stored credential, if there is one.
pub fn delete_api_key(store: &mut SecretStore) -> (done: Result<(), ServiceError>)
    ensures
        done is Ok,
        final(store).slot(SecretKind::Credential) is None,
        final(store).slot(SecretKind::EndpointUrl) == old(store).slot(SecretKind::EndpointUrl),
{
    store.delete(SecretKind::Credential)
}

/// Deletes the stored endpoint URL, if there is one.
pub fn delete_api_url(store: &mut SecretStore) -> (done: Result<(), ServiceError>)
    ensures
        done is Ok,
        final(store).slot(SecretKind::EndpointUrl) is None,
        final(store).slot(SecretKind::Credential) == old(store).slot(SecretKind::Credential),
{
    store.delete(SecretKind::EndpointUrl)
}

} // verus!
