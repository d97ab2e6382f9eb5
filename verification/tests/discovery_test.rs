use chat_ai_lib::discovery::{
    begin_fetch, bytes_le, fetch_models_from_api, finish_fetch, model_ids, models_url,
    sort_models, str_ends_with, write_models_to_file, FetchAction, FetchEvent,
};
use chat_ai_lib::error::ServiceError;
use chat_ai_lib::frequency::FrequencyMap;
use chat_ai_lib::handlers::fetch_models;
use chat_ai_lib::models::{ModelData, ModelFrequency, ModelsResponse};

fn list(models: &[&str]) -> Vec<String> {
    models.iter().map(|m| m.to_string()).collect()
}

fn listing(ids: &[&str]) -> ModelsResponse {
    ModelsResponse { data: ids.iter().map(|id| ModelData { id: id.to_string() }).collect() }
}

#[test]
fn test_models_url_scenarios() {
    assert_eq!(
        models_url("https://api.example.com/v1/chat/completions"),
        "https://api.example.com/v1/models"
    );
    assert_eq!(models_url("https://api.example.com/v1"), "https://api.example.com/v1/models");
}

#[test]
fn test_models_url_other_shapes() {
    assert_eq!(models_url("https://api.example.com/v1/"), "https://api.example.com/v1/models");
    assert_eq!(models_url("https://api.example.com"), "https://api.example.com/v1/models");
    assert_eq!(models_url("https://api.example.com/"), "https://api.example.com/v1/models");
    assert_eq!(models_url("https://api.example.com///"), "https://api.example.com/v1/models");
    assert_eq!(
        models_url("https://host/proxy/chat/completions"),
        "https://host/proxy/models"
    );
    assert_eq!(models_url("/chat/completions"), "/models");
    assert_eq!(models_url(""), "/v1/models");
    assert_eq!(models_url("/"), "/v1/models");
    assert_eq!(models_url("/v1"), "/v1/models");
    assert_eq!(models_url("https://host/v2"), "https://host/v2/v1/models");
}

#[test]
fn test_models_url_replaces_the_suffix_only() {
    assert_eq!(
        models_url("https://host/chat/completions/v1/chat/completions"),
        "https://host/chat/completions/v1/models"
    );
    assert_eq!(
        models_url("https://host/chat/completions/"),
        "https://host/chat/completions/v1/models"
    );
    assert_eq!(models_url("https://hôte.example/v1"), "https://hôte.example/v1/models");
}

#[test]
fn test_str_ends_with() {
    assert!(str_ends_with("abc", "bc"));
    assert!(str_ends_with("abc", ""));
    assert!(str_ends_with("abc", "abc"));
    assert!(!str_ends_with("abc", "xabc"));
    assert!(!str_ends_with("abc", "ab"));
    assert!(str_ends_with("héllo/v1", "/v1"));
    assert!(!str_ends_with("", "/"));
}

#[test]
fn test_bytes_le_is_the_order_of_strings() {
    let samples = ["", "a", "ab", "abc", "b", "B", "gpt-4", "gpt-4o", "gpt-3.5-turbo", "é", "z"];
    for a in samples {
        for b in samples {
            assert_eq!(bytes_le(a.as_bytes(), b.as_bytes()), a <= b, "{:?} <= {:?}", a, b);
        }
    }
}

#[test]
fn test_sort_models_sorts_and_keeps_duplicates() {
    assert_eq!(
        sort_models(&list(&["gpt-4o", "gpt-4", "llama", "gpt-3.5-turbo", "gpt-4", "Zeta"])),
        list(&["Zeta", "gpt-3.5-turbo", "gpt-4", "gpt-4", "gpt-4o", "llama"])
    );
    assert_eq!(sort_models(&list(&[])), list(&[]));
    assert_eq!(sort_models(&list(&["only"])), list(&["only"]));

    let mut expected = list(&["m9", "m1", "m5", "m3", "m7", "m2", "m8", "m4", "m6", "m0"]);
    let sorted = sort_models(&expected);
    expected.sort();
    assert_eq!(sorted, expected);
}

#[test]
fn test_model_ids_in_listing_order() {
    assert_eq!(model_ids(&listing(&["b", "a", "b"])), list(&["b", "a", "b"]));
    assert_eq!(model_ids(&listing(&[])), list(&[]));
}

#[test]
fn test_begin_fetch_answers_from_the_stored_map() {
    let mut stored = FrequencyMap::new();
    stored.insert("rare".to_string(), 1);
    stored.insert("broken".to_string(), -1);
    stored.insert("common".to_string(), 12);
    let stored = Some(ModelFrequency { frequencies: stored });

    match begin_fetch("https://api.example.com/v1", &stored) {
        FetchAction::Respond(response) => assert_eq!(response.models, list(&["common", "rare"])),
        other => panic!("unexpected action {:?}", other),
    }
}

#[test]
fn test_begin_fetch_discovers_without_usable_models() {
    let expect_discover = |stored: Option<ModelFrequency>| {
        match begin_fetch("https://api.example.com/v1/chat/completions", &stored) {
            FetchAction::Discover { url } => assert_eq!(url, "https://api.example.com/v1/models"),
            other => panic!("unexpected action {:?}", other),
        }
    };
    expect_discover(None);
    expect_discover(Some(ModelFrequency { frequencies: FrequencyMap::new() }));
    let mut failed = FrequencyMap::new();
    failed.insert("a".to_string(), -1);
    failed.insert("b".to_string(), -1);
    expect_discover(Some(ModelFrequency { frequencies: failed }));
}

#[test]
fn test_fetch_models_from_api_results() {
    assert_eq!(
        fetch_models_from_api(200, &Some(listing(&["b", "c", "a"]))),
        Ok(list(&["a", "b", "c"]))
    );
    assert_eq!(fetch_models_from_api(299, &Some(listing(&[]))), Ok(list(&[])));
    assert_eq!(
        fetch_models_from_api(404, &Some(listing(&["a"]))),
        Err(ServiceError::ApiError { status: 404 })
    );
    assert_eq!(fetch_models_from_api(199, &None), Err(ServiceError::ApiError { status: 199 }));
    assert_eq!(fetch_models_from_api(300, &None), Err(ServiceError::ApiError { status: 300 }));
    assert_eq!(fetch_models_from_api(200, &None), Err(ServiceError::ParseError));
}

#[test]
fn test_write_models_registers_without_overwriting() {
    let mut cache = FrequencyMap::new();
    cache.insert("gpt-4".to_string(), 8);
    let snapshot = write_models_to_file(&mut cache, &list(&["llama", "gpt-4"]));
    assert_eq!(cache.get("gpt-4"), Some(&8));
    assert_eq!(cache.get("llama"), Some(&0));
    assert_eq!(snapshot.frequencies.get("gpt-4"), Some(&8));
    assert_eq!(snapshot.frequencies.get("llama"), Some(&0));
    assert_eq!(snapshot.frequencies.len(), 2);
}

#[test]
fn test_finish_fetch_persists_the_sorted_listing() {
    let mut cache = FrequencyMap::new();
    cache.insert("gpt-4".to_string(), 3);
    match finish_fetch(&mut cache, 200, &Some(listing(&["gpt-4o", "gpt-4", "llama"]))) {
        FetchAction::Persist { snapshot, response } => {
            assert_eq!(response.models, list(&["gpt-4", "gpt-4o", "llama"]));
            assert_eq!(snapshot.frequencies.len(), 3);
            assert_eq!(snapshot.frequencies.get("gpt-4"), Some(&3));
            assert_eq!(snapshot.frequencies.get("llama"), Some(&0));
            assert_eq!(snapshot.frequencies.get("gpt-4o"), Some(&0));
        },
        other => panic!("unexpected action {:?}", other),
    }
    assert_eq!(cache.len(), 3);

    match finish_fetch(&mut cache, 500, &None) {
        FetchAction::Fail(error) => assert_eq!(error, ServiceError::ApiError { status: 500 }),
        other => panic!("unexpected action {:?}", other),
    }
    assert_eq!(cache.len(), 3);
}

#[test]
fn test_fetch_models_runs_a_discovery() {
    let mut cache = FrequencyMap::new();
    let url = match fetch_models(&mut cache, "https://api.example.com", FetchEvent::Start { stored: None }) {
        FetchAction::Discover { url } => url,
        other => panic!("unexpected action {:?}", other),
    };
    assert_eq!(url, "https://api.example.com/v1/models");

    let event = FetchEvent::Listing { status: 200, listing: Some(listing(&["m2", "m1"])) };
    let snapshot = match fetch_models(&mut cache, "https://api.example.com", event) {
        FetchAction::Persist { snapshot, response } => {
            assert_eq!(response.models, list(&["m1", "m2"]));
            snapshot
        },
        other => panic!("unexpected action {:?}", other),
    };

    let start = FetchEvent::Start { stored: Some(snapshot) };
    match fetch_models(&mut cache, "https://api.example.com", start) {
        FetchAction::Respond(response) => assert_eq!(response.models, list(&["m1", "m2"])),
        other => panic!("unexpected action {:?}", other),
    }

    match fetch_models(&mut cache, "https://api.example.com", FetchEvent::TransportError) {
        FetchAction::Fail(error) => assert_eq!(error, ServiceError::TransportError),
        other => panic!("unexpected action {:?}", other),
    }
    let parse = FetchEvent::Listing { status: 200, listing: None };
    match fetch_models(&mut cache, "https://api.example.com", parse) {
        FetchAction::Fail(error) => assert_eq!(error, ServiceError::ParseError),
        other => panic!("unexpected action {:?}", other),
    }
}
