use action_crawler::codec::actions_from_json;
use action_crawler::codec::actions_to_json;
use action_crawler::codec::services_from_json;
use action_crawler::codec::services_to_json;
use action_crawler::records::Action;
use action_crawler::records::Service;

fn svc(name: &str, code: &str, uri: &str) -> Service {
    Service {
        name: String::from(name),
        code: String::from(code),
        document_uri: String::from(uri),
    }
}

fn act(name: &str, description: &str, uri: &str) -> Action {
    Action {
        name: String::from(name),
        description: String::from(description),
        document_uri: String::from(uri),
    }
}

#[test]
fn services_wire_shape_is_exact() {
    let v = vec![svc("Amazon S3", "s3", "https://example.invalid/list_s3.html")];
    let json = services_to_json(&v);
    assert_eq!(
        json,
        "[{\"name\":\"Amazon S3\",\"code\":\"s3\",\"documentURI\":\"https://example.invalid/list_s3.html\"}]"
    );
}

#[test]
fn actions_wire_shape_is_exact() {
    let v = vec![act("s3:PutObject", "Grants permission to add an object", "API_PutObject.html")];
    let json = actions_to_json(&v);
    assert_eq!(
        json,
        "[{\"name\":\"s3:PutObject\",\"description\":\"Grants permission to add an object\",\"documentURI\":\"API_PutObject.html\"}]"
    );
}

#[test]
fn empty_collections_serialize_to_empty_array() {
    assert_eq!(services_to_json(&vec![]), "[]");
    assert_eq!(actions_to_json(&vec![]), "[]");
    assert_eq!(services_from_json("[]"), Some(vec![]));
    assert_eq!(actions_from_json("[]"), Some(vec![]));
}

#[test]
fn services_round_trip_plain() {
    let v = vec![
        svc("Amazon S3", "s3", "https://example.invalid/list_s3.html"),
        svc("AWS IAM", "iam", "https://example.invalid/list_iam.html"),
    ];
    let json = services_to_json(&v);
    assert_eq!(services_from_json(&json), Some(v));
}

#[test]
fn actions_round_trip_plain() {
    let v = vec![
        act("s3:PutObject", "Grants permission to add an object", "API_PutObject.html"),
        act("s3:ListBuckets", "Grants permission to list buckets", ""),
    ];
    let json = actions_to_json(&v);
    assert_eq!(actions_from_json(&json), Some(v));
}

#[test]
fn round_trip_keeps_escaped_characters() {
    let v = vec![svc("a\"b\\c\nd", "s3", "x\ty")];
    let json = services_to_json(&v);
    assert_eq!(
        json,
        "[{\"name\":\"a\\\"b\\\\c\\u000ad\",\"code\":\"s3\",\"documentURI\":\"x\\u0009y\"}]"
    );
    assert_eq!(services_from_json(&json), Some(v));
}

#[test]
fn reader_accepts_internal_field_name_for_the_uri() {
    let json = "[{\"name\":\"Amazon S3\",\"code\":\"s3\",\"document_uri\":\"u\"}]";
    assert_eq!(services_from_json(json), Some(vec![svc("Amazon S3", "s3", "u")]));
    let json2 = "[{\"name\":\"s3:PutObject\",\"description\":\"d\",\"document_uri\":\"u\"}]";
    assert_eq!(actions_from_json(json2), Some(vec![act("s3:PutObject", "d", "u")]));
}

#[test]
fn reader_accepts_short_escapes() {
    let json = "[{\"name\":\"a\\nb\\/c\",\"code\":\"s3\",\"documentURI\":\"\"}]";
    assert_eq!(services_from_json(json), Some(vec![svc("a\nb/c", "s3", "")]));
}

#[test]
fn malformed_documents_are_rejected() {
    assert_eq!(services_from_json(""), None);
    assert_eq!(services_from_json("{}"), None);
    assert_eq!(services_from_json("[{\"name\":\"x\"}]"), None);
    assert_eq!(
        services_from_json("[{\"name\":\"x\",\"code\":\"y\",\"documentURI\":\"z\"}] "),
        None
    );
    assert_eq!(
        services_from_json("[{\"name\":\"x\",\"code\":\"y\",\"documentURI\":\"z\"},]"),
        None
    );
    assert_eq!(actions_from_json("[{\"name\":\"x\",\"code\":\"y\",\"documentURI\":\"z\"}]"), None);
}

#[test]
fn wire_output_is_json_for_an_outside_reader() {
    let v = vec![svc("A \"quoted\" name\u{1}", "s3", "u\\v")];
    let json = services_to_json(&v);
    let parsed: serde_json::Value = serde_json::from_str(&json).expect("valid JSON");
    let arr = parsed.as_array().expect("an array");
    assert_eq!(arr.len(), 1);
    assert_eq!(arr[0]["name"], "A \"quoted\" name\u{1}");
    assert_eq!(arr[0]["code"], "s3");
    assert_eq!(arr[0]["documentURI"], "u\\v");
}

#[test]
fn outside_writer_escapes_are_read_back() {
    let name = serde_json::to_string("Amazon \"S3\" plus \\ more").expect("serializes");
    let text = format!("[{{\"name\":{},\"code\":\"s3\",\"documentURI\":\"\"}}]", name);
    assert_eq!(
        services_from_json(&text),
        Some(vec![svc("Amazon \"S3\" plus \\ more", "s3", "")])
    );
}
