use chat_ai_lib::cache::SecretStore;
use chat_ai_lib::chat::{ChatMessage, ChatPayload};
use chat_ai_lib::cipher::{fresh_key, SecretCipher};
use chat_ai_lib::error::{SecretKind, ServiceError};
use chat_ai_lib::handlers::{
    get_api_key, get_api_url, remove_api_key, remove_api_url, save_api_key, save_api_url,
};
use chat_ai_lib::models::{AvailableModelsResponse, ModelData, ModelsResponse};

fn test_cipher() -> SecretCipher {
    SecretCipher::from_key(fresh_key()).unwrap()
}

#[test]
fn test_api_key_management() {
    let test_key = "test-api-key-123".to_string();
    let cipher = test_cipher();
    let mut store = SecretStore::new();

    assert!(save_api_key(&cipher, &mut store, test_key.clone()).is_ok());

    let retrieved_key = get_api_key(&cipher, &store);
    assert!(retrieved_key.is_ok());
    assert_eq!(retrieved_key.unwrap(), test_key);

    assert!(remove_api_key(&mut store).is_ok());

    let result = get_api_key(&cipher, &store);
    assert!(result.is_err());
}

#[test]
fn test_api_url_management() {
    let test_url = "https://test.api.com".to_string();
    let cipher = test_cipher();
    let mut store = SecretStore::new();

    assert!(save_api_url(&cipher, &mut store, test_url.clone()).is_ok());

    let retrieved_url = get_api_url(&cipher, &store);
    assert!(retrieved_url.is_ok());
    assert_eq!(retrieved_url.unwrap(), test_url);

    assert!(remove_api_url(&mut store).is_ok());

    let result = get_api_url(&cipher, &store);
    assert!(result.is_err());
}

#[test]
fn handlers_test_test_chat_payload() {
    let messages = vec![ChatMessage {
        role: "user".to_string(),
        content: "Hello".to_string(),
    }];

    let payload = ChatPayload {
        model: "gpt-3.5-turbo".to_string(),
        messages: messages.clone(),
        stream: true,
    };

    assert_eq!(payload.model, "gpt-3.5-turbo");
    assert_eq!(payload.messages.len(), 1);
    assert_eq!(payload.messages[0].role, "user");
    assert_eq!(payload.messages[0].content, "Hello");
    assert!(payload.stream);
}

#[test]
fn handlers_test_test_models_response() {
    let model_data = ModelData {
        id: "gpt-3.5-turbo".to_string(),
    };

    let models_response = ModelsResponse {
        data: vec![model_data],
    };

    assert_eq!(models_response.data.len(), 1);
    assert_eq!(models_response.data[0].id, "gpt-3.5-turbo");
}

#[test]
fn handlers_test_test_available_models_response() {
    let models = vec!["gpt-3.5-turbo".to_string(), "gpt-4".to_string()];
    let response = AvailableModelsResponse {
        models: models.clone(),
    };

    assert_eq!(response.models.len(), 2);
    assert_eq!(response.models, models);
}

#[test]
fn test_invalid_api_key() {
    let cipher = test_cipher();
    let mut store = SecretStore::new();

    let _ = save_api_key(&cipher, &mut store, "invalid-key".to_string());

    let result = get_api_key(&cipher, &store);
    assert!(result.is_ok());
    assert_eq!(result.unwrap(), "invalid-key");

    let _ = remove_api_key(&mut store);
}

#[test]
fn test_empty_api_key() {
    let cipher = test_cipher();
    let mut store = SecretStore::new();
    let result = save_api_key(&cipher, &mut store, "".to_string());
    assert!(result.is_err());
    assert_eq!(result, Err(ServiceError::ConfigurationError));
}

#[test]
fn test_empty_api_url() {
    let cipher = test_cipher();
    let mut store = SecretStore::new();
    let result = save_api_url(&cipher, &mut store, "".to_string());
    assert!(result.is_err());
    assert_eq!(result, Err(ServiceError::ConfigurationError));
}

#[test]
fn test_key_and_url_are_kept_apart() {
    let cipher = test_cipher();
    let mut store = SecretStore::new();
    save_api_key(&cipher, &mut store, "the key".to_string()).unwrap();
    assert_eq!(
        get_api_url(&cipher, &store),
        Err(ServiceError::NotConfigured(SecretKind::EndpointUrl))
    );
    save_api_url(&cipher, &mut store, "the url".to_string()).unwrap();
    remove_api_key(&mut store).unwrap();
    assert_eq!(
        get_api_key(&cipher, &store),
        Err(ServiceError::NotConfigured(SecretKind::Credential))
    );
    assert_eq!(get_api_url(&cipher, &store), Ok("the url".to_string()));
}
