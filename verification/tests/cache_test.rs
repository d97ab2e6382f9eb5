use chat_ai_lib::cache::{
    decrypt_api_key, decrypt_api_url, delete_api_key, delete_api_url, encrypt_api_key,
    encrypt_api_url, get_cache_dir, load_frequencies, save_frequencies, secret_file,
    update_frequency, CacheEnv, SecretStore, API_KEYS_FILE, API_URL_FILE,
};
use base64::engine::general_purpose::STANDARD;
use base64::Engine;
use chat_ai_lib::cipher::{fresh_key, SecretCipher, NONCE_LEN, TAG_LEN};
use chat_ai_lib::error::{SecretKind, ServiceError};
use chat_ai_lib::frequency::FrequencyMap;

fn unix_env(home: Option<&str>) -> CacheEnv {
    CacheEnv {
        cache_override: None,
        windows: false,
        local_app_data: None,
        user_profile: None,
        home: home.map(|h| h.to_string()),
    }
}

fn test_cipher() -> SecretCipher {
    SecretCipher::from_key(fresh_key()).unwrap()
}

#[test]
fn test_cache_directory() {
    let cache_dir = get_cache_dir(&unix_env(Some("/home/tester")));
    assert!(cache_dir.ends_with(".cache/chat-ai"), "wrong path: {}", cache_dir);
    assert_eq!(cache_dir, "/home/tester/.cache/chat-ai");

    let windows = CacheEnv {
        cache_override: None,
        windows: true,
        local_app_data: Some("C:\\Users\\Tester\\AppData\\Local".to_string()),
        user_profile: None,
        home: None,
    };
    let cache_dir = get_cache_dir(&windows);
    assert!(
        cache_dir.contains("AppData\\Local\\chat-ai") || cache_dir.ends_with("\\chat-ai"),
        "wrong path: {}",
        cache_dir
    );
    assert_eq!(cache_dir, "C:\\Users\\Tester\\AppData\\Local\\chat-ai");
}

#[test]
fn test_cache_directory_with_env() {
    let test_path = "/test/cache/path";
    let mut env = unix_env(Some("/home/tester"));
    env.cache_override = Some(test_path.to_string());
    assert_eq!(get_cache_dir(&env), test_path);

    let test_path = "C:\\test\\cache\\path";
    let env = CacheEnv {
        cache_override: Some(test_path.to_string()),
        windows: true,
        local_app_data: Some("C:\\elsewhere".to_string()),
        user_profile: None,
        home: None,
    };
    assert_eq!(get_cache_dir(&env), test_path);
}

#[test]
fn test_windows_fallback_path() {
    let env = CacheEnv {
        cache_override: None,
        windows: true,
        local_app_data: None,
        user_profile: Some("C:\\Users\\TestUser".to_string()),
        home: None,
    };
    let cache_dir = get_cache_dir(&env);
    assert!(
        cache_dir.ends_with("\\AppData\\Local\\chat-ai"),
        "wrong fallback path: {}",
        cache_dir
    );
    assert_eq!(cache_dir, "C:\\Users\\TestUser\\AppData\\Local\\chat-ai");
}

#[test]
fn test_cache_directory_without_home() {
    assert_eq!(get_cache_dir(&unix_env(None)), "/.cache/chat-ai");
    assert_eq!(get_cache_dir(&unix_env(Some("/root/"))), "/root/.cache/chat-ai");
    assert_eq!(get_cache_dir(&unix_env(Some(""))), ".cache/chat-ai");

    let bare = CacheEnv {
        cache_override: None,
        windows: true,
        local_app_data: None,
        user_profile: None,
        home: Some("/ignored".to_string()),
    };
    assert_eq!(get_cache_dir(&bare), "C:\\AppData\\Local\\chat-ai");

    let slashed = CacheEnv {
        cache_override: None,
        windows: true,
        local_app_data: Some("D:/data/".to_string()),
        user_profile: None,
        home: None,
    };
    assert_eq!(get_cache_dir(&slashed), "D:/data/chat-ai");
}

#[test]
fn test_api_key_encryption() {
    let test_key = "test-api-key-123";
    let cipher = test_cipher();
    let mut store = SecretStore::new();

    let _ = delete_api_key(&mut store);

    assert!(encrypt_api_key(&cipher, &mut store, test_key).is_ok());

    let decrypted = decrypt_api_key(&cipher, &store);
    assert!(decrypted.is_ok());
    assert_eq!(decrypted.unwrap(), test_key);

    assert!(delete_api_key(&mut store).is_ok());
}

#[test]
fn test_api_url_encryption() {
    let test_url = "https://test.api.com";
    let cipher = test_cipher();
    let mut store = SecretStore::new();

    let _ = delete_api_url(&mut store);

    assert!(encrypt_api_url(&cipher, &mut store, test_url).is_ok());

    let decrypted = decrypt_api_url(&cipher, &store);
    assert!(decrypted.is_ok());
    assert_eq!(decrypted.unwrap(), test_url);

    assert!(delete_api_url(&mut store).is_ok());
}

#[test]
fn test_model_frequencies() {
    let model = "gpt-4".to_string();
    let mut frequencies = FrequencyMap::new();

    update_frequency(&mut frequencies, model.clone(), true);
    assert_eq!(*frequencies.get(&model).unwrap(), 1);

    update_frequency(&mut frequencies, model.clone(), false);
    assert_eq!(*frequencies.get(&model).unwrap(), -1);

    let snapshot = save_frequencies(&frequencies);
    assert_eq!(snapshot.frequencies.len(), 1);
    assert_eq!(snapshot.frequencies.get("gpt-4"), Some(&-1));

    let restored = load_frequencies(Some(snapshot));
    assert_eq!(restored.get("gpt-4"), Some(&-1));
    assert!(load_frequencies(None).is_empty());
}

#[test]
fn test_missing_api_key() {
    let cipher = test_cipher();
    let mut store = SecretStore::new();

    let _ = delete_api_key(&mut store);

    let result = decrypt_api_key(&cipher, &store);
    assert!(result.is_err());
    assert!(result.unwrap_err().message().contains("API key 未设置"));
}

#[test]
fn test_missing_api_url() {
    let cipher = test_cipher();
    let mut store = SecretStore::new();

    let _ = delete_api_url(&mut store);

    let result = decrypt_api_url(&cipher, &store);
    assert!(result.is_err());
    assert!(result.unwrap_err().message().contains("API URL 未设置"));
}

#[test]
fn test_secret_files_have_fixed_names() {
    assert_eq!(secret_file(SecretKind::Credential), "api_keys.enc");
    assert_eq!(secret_file(SecretKind::EndpointUrl), "api_url.enc");
    assert_eq!(API_KEYS_FILE, "api_keys.enc");
    assert_eq!(API_URL_FILE, "api_url.enc");
}

#[test]
fn test_save_load_delete_scenario() {
    let cipher = test_cipher();
    let mut store = SecretStore::new();

    assert_eq!(store.save(&cipher, SecretKind::Credential, "sk-test-123"), Ok(()));
    assert_eq!(store.load(&cipher, SecretKind::Credential), Ok("sk-test-123".to_string()));

    assert_eq!(store.delete(SecretKind::Credential), Ok(()));
    assert_eq!(
        store.load(&cipher, SecretKind::Credential),
        Err(ServiceError::NotConfigured(SecretKind::Credential))
    );
}

#[test]
fn test_secrets_do_not_touch_each_other() {
    let cipher = test_cipher();
    let mut store = SecretStore::new();

    store.save(&cipher, SecretKind::Credential, "key").unwrap();
    store.save(&cipher, SecretKind::EndpointUrl, "https://example.test/v1").unwrap();
    let url_blob = store.endpoint_url.clone();

    store.save(&cipher, SecretKind::Credential, "another key").unwrap();
    assert_eq!(store.endpoint_url, url_blob);
    assert_eq!(store.load(&cipher, SecretKind::Credential), Ok("another key".to_string()));

    store.delete(SecretKind::Credential).unwrap();
    assert_eq!(store.endpoint_url, url_blob);
    assert_eq!(
        store.load(&cipher, SecretKind::EndpointUrl),
        Ok("https://example.test/v1".to_string())
    );
    assert_eq!(store.delete(SecretKind::Credential), Ok(()));
}

#[test]
fn test_empty_secret_is_refused() {
    let cipher = test_cipher();
    let mut store = SecretStore::new();
    store.save(&cipher, SecretKind::EndpointUrl, "kept").unwrap();
    let before = store.endpoint_url.clone();

    assert_eq!(
        store.save(&cipher, SecretKind::EndpointUrl, ""),
        Err(ServiceError::ConfigurationError)
    );
    assert_eq!(store.endpoint_url, before);
    assert_eq!(
        store.save(&cipher, SecretKind::Credential, ""),
        Err(ServiceError::ConfigurationError)
    );
    assert!(store.credential.is_none());
}

#[test]
fn test_missing_secret_differs_from_damaged_secret() {
    let cipher = test_cipher();
    let mut store = SecretStore::new();
    assert_eq!(
        store.load(&cipher, SecretKind::EndpointUrl),
        Err(ServiceError::NotConfigured(SecretKind::EndpointUrl))
    );

    store.endpoint_url = Some(b"not base64 at all!".to_vec());
    let damaged = store.load(&cipher, SecretKind::EndpointUrl);
    assert!(matches!(damaged, Err(ServiceError::Cipher(_))));
}

#[test]
fn test_stored_text_has_the_length_of_nonce_text_and_tag() {
    let cipher = test_cipher();
    let mut store = SecretStore::new();

    for key in ["k", "sk-test-123", "密钥 🔑"] {
        assert_eq!(encrypt_api_key(&cipher, &mut store, key), Ok(()));
        let raw = STANDARD.decode(store.credential.as_ref().unwrap()).unwrap();
        assert_eq!(raw.len(), 12 + key.len() + 16);
        assert_eq!(raw.len(), NONCE_LEN + key.len() + TAG_LEN);
    }
}

#[test]
fn test_saving_again_replaces_the_url() {
    let cipher = test_cipher();
    let mut store = SecretStore::new();
    encrypt_api_key(&cipher, &mut store, "the key").unwrap();
    let key_blob = store.credential.clone();

    assert_eq!(encrypt_api_url(&cipher, &mut store, "https://first.example/v1"), Ok(()));
    let second = "https://second.example/v1/chat/completions";
    assert_eq!(encrypt_api_url(&cipher, &mut store, second), Ok(()));

    assert_eq!(decrypt_api_url(&cipher, &store), Ok(second.to_string()));
    let raw = STANDARD.decode(store.endpoint_url.as_ref().unwrap()).unwrap();
    assert_eq!(raw.len(), 12 + second.len() + 16);
    assert_eq!(store.credential, key_blob);
}
