use content_analyzer::config::{Config, TokenStep, token_step};
use content_analyzer::contentful::{ContentfulClient, Endpoint, Request};
use content_analyzer::entry::{LinkKind, NodeKey};
use content_analyzer::json::Json;
use content_analyzer::text::{contains_char, contains_text, str_eq};

#[test]
fn client_plans_the_spaces_request() {
    let client = ContentfulClient::new("secret".to_string());
    assert_eq!(
        client.get_spaces(),
        Request {
            url: "https://cdn.contentful.com/spaces".to_string(),
            authorization: "Bearer secret".to_string()
        }
    );
}

#[test]
fn client_plans_the_entries_request() {
    let client = ContentfulClient::new("tok".to_string());
    let request = client.get_entries("sp1", "master");
    assert_eq!(request.url, "https://cdn.contentful.com/spaces/sp1/environments/master/entries");
    assert_eq!(request.authorization, "Bearer tok");
}

#[test]
fn client_plans_the_content_types_request() {
    let client = ContentfulClient::new("".to_string());
    let request = client.get_content_types("sp1", "staging");
    assert_eq!(
        request.url,
        "https://cdn.contentful.com/spaces/sp1/environments/staging/content_types"
    );
    assert_eq!(request.authorization, "Bearer ");
}

#[test]
fn endpoint_builds_query_urls() {
    let endpoint = Endpoint {
        base_url: "https://cdn.example.com/spaces".to_string(),
        space_id: "sp1".to_string(),
        environment_id: "master".to_string(),
    };
    assert_eq!(
        endpoint.get_query_string_url_ext("?content_type=post&limit=5"),
        "https://cdn.example.com/spaces/sp1/environments/master/entries?content_type=post&limit=5"
    );
    assert_eq!(
        endpoint.get_query_string_url_ext(""),
        "https://cdn.example.com/spaces/sp1/environments/master/entries"
    );
    assert_eq!(endpoint.entries_url(None), endpoint.get_query_string_url_ext(""));
    assert_eq!(endpoint.entries_url(Some("?a=b")), endpoint.get_query_string_url_ext("?a=b"));
}

#[test]
fn config_stores_one_token_for_each_space() {
    let config = Config::new();
    assert_eq!(config.len(), 0);
    assert_eq!(config.token("a"), None);
    let config = config.with_token("a".to_string(), "t1".to_string());
    let config = config.with_token("b".to_string(), "t2".to_string());
    assert_eq!(config.token("a"), Some(&"t1".to_string()));
    assert_eq!(config.token("b"), Some(&"t2".to_string()));
    assert_eq!(config.token("c"), None);
    let config = config.with_token("a".to_string(), "t3".to_string());
    assert_eq!(config.len(), 2);
    assert_eq!(config.token("a"), Some(&"t3".to_string()));
    assert_eq!(config.token("b"), Some(&"t2".to_string()));
    assert_eq!(config.space_at(0), Some((&"a".to_string(), &"t3".to_string())));
    assert_eq!(config.space_at(1), Some((&"b".to_string(), &"t2".to_string())));
    assert_eq!(config.space_at(2), None);
}

#[test]
fn token_steps() {
    let stored = "abc".to_string();
    let empty = String::new();
    assert_eq!(token_step(None, None), TokenStep::PromptForToken);
    assert_eq!(token_step(None, Some(true)), TokenStep::PromptForToken);
    assert_eq!(token_step(Some(&empty), None), TokenStep::PromptForToken);
    assert_eq!(token_step(Some(&empty), Some(true)), TokenStep::PromptForToken);
    assert_eq!(token_step(Some(&stored), None), TokenStep::AskToReuse);
    assert_eq!(token_step(Some(&stored), Some(true)), TokenStep::Use("abc".to_string()));
    assert_eq!(token_step(Some(&stored), Some(false)), TokenStep::PromptForToken);
}

#[test]
fn text_helpers() {
    assert!(str_eq("abc", "abc"));
    assert!(!str_eq("abc", "abd"));
    assert!(!str_eq("abc", "ab"));
    assert!(str_eq("", ""));
    let list = vec!["x".to_string(), "yz".to_string()];
    assert!(contains_text(&list, "yz"));
    assert!(!contains_text(&list, "y"));
    assert!(!contains_text(&vec![], ""));
    assert!(contains_char("gim", 'i'));
    assert!(!contains_char("gm", 'i'));
    assert!(!contains_char("", 'i'));
    assert!(contains_char("äß", 'ß'));
}

#[test]
fn json_members_and_copies() {
    let value = Json::Object(vec![
        ("a".to_string(), Json::Integer(1)),
        ("b".to_string(), Json::Text("two".to_string())),
        ("a".to_string(), Json::Integer(3)),
        (
            "c".to_string(),
            Json::Array(vec![Json::Null, Json::Bool(true), Json::Decimal("1.5".to_string())]),
        ),
    ]);
    assert_eq!(value.member("a"), Some(&Json::Integer(1)));
    assert_eq!(value.member("d"), None);
    assert_eq!(value.text_member("b"), Some(&"two".to_string()));
    assert_eq!(value.text_member("a"), None);
    assert_eq!(Json::Null.member("a"), None);
    assert_eq!(Json::Text("x".to_string()).text(), Some(&"x".to_string()));
    assert_eq!(Json::Integer(1).text(), None);
    assert_eq!(value.clone(), value);
}

#[test]
fn node_keys_compare_by_kind_and_id() {
    let a = NodeKey { kind: LinkKind::Entry, id: "x".to_string() };
    assert!(a.same_as(&a.clone()));
    assert!(!a.same_as(&NodeKey { kind: LinkKind::Asset, id: "x".to_string() }));
    assert!(!a.same_as(&NodeKey { kind: LinkKind::Entry, id: "y".to_string() }));
    assert_eq!(LinkKind::from_tag("Entry"), Some(LinkKind::Entry));
    assert_eq!(LinkKind::from_tag("Asset"), Some(LinkKind::Asset));
    assert_eq!(LinkKind::from_tag("Space"), None);
}
