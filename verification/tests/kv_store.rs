use bullg::body::{classify_body, parse_form, BodyFormat};
use bullg::kv::{KvError, KvStore};
use bullg::value::KvValue;

#[test]
fn put_then_get_round_trips() {
    let mut store = KvStore::new();
    store.put("db", "k", KvValue::Int(42));
    assert_eq!(store.get("db", "k"), Some(&KvValue::Int(42)));
}

#[test]
fn put_round_trips_regardless_of_value_shape() {
    let mut store = KvStore::new();
    store.put(
        "db",
        "obj",
        KvValue::Obj(vec![(String::from("a"), KvValue::Bool(true))]),
    );
    store.put("db", "arr", KvValue::Arr(vec![KvValue::Null, KvValue::Int(7)]));
    store.put("db", "s", KvValue::Str(String::from("hello")));
    assert_eq!(
        store.get("db", "obj"),
        Some(&KvValue::Obj(vec![(String::from("a"), KvValue::Bool(true))]))
    );
    assert_eq!(
        store.get("db", "arr"),
        Some(&KvValue::Arr(vec![KvValue::Null, KvValue::Int(7)]))
    );
    assert_eq!(store.get("db", "s"), Some(&KvValue::Str(String::from("hello"))));
}

#[test]
fn get_absent_key_is_none() {
    let store = KvStore::new();
    assert_eq!(store.get("db", "missing"), None);
}

#[test]
fn add_twice_returns_already_exists() {
    let mut store = KvStore::new();
    assert_eq!(store.add("db", "k", KvValue::Int(1)), Ok(()));
    assert_eq!(store.add("db", "k", KvValue::Int(2)), Err(KvError::AlreadyExists));
    assert_eq!(store.get("db", "k"), Some(&KvValue::Int(1)));
}

#[test]
fn update_after_delete_returns_not_found() {
    let mut store = KvStore::new();
    store.put("db", "k", KvValue::Int(1));
    store.delete("db", "k");
    assert_eq!(store.update("db", "k", KvValue::Int(2)), Err(KvError::NotFound));
}

#[test]
fn delete_is_idempotent() {
    let mut store = KvStore::new();
    store.put("db", "k", KvValue::Int(1));
    store.delete("db", "k");
    store.delete("db", "k");
    assert_eq!(store.get("db", "k"), None);
}

#[test]
fn databases_are_disjoint() {
    let mut store = KvStore::new();
    store.put("a", "k", KvValue::Int(1));
    store.put("b", "k", KvValue::Int(2));
    assert_eq!(store.get("a", "k"), Some(&KvValue::Int(1)));
    assert_eq!(store.get("b", "k"), Some(&KvValue::Int(2)));
    store.delete("a", "k");
    assert_eq!(store.get("a", "k"), None);
    assert_eq!(store.get("b", "k"), Some(&KvValue::Int(2)));
}

#[test]
fn contains_tracks_presence() {
    let mut store = KvStore::new();
    assert!(!store.contains("db", "k"));
    store.put("db", "k", KvValue::Null);
    assert!(store.contains("db", "k"));
}

#[test]
fn patch_on_non_object_is_type_mismatch() {
    let mut store = KvStore::new();
    store.put("db", "k", KvValue::Int(42));
    let r = store.patch("db", "k", vec![(String::from("field"), KvValue::Str(String::from("v")))]);
    assert_eq!(r, Err(KvError::TypeMismatch));
    assert_eq!(store.get("db", "k"), Some(&KvValue::Int(42)));
}

#[test]
fn patch_on_absent_key_is_not_found() {
    let mut store = KvStore::new();
    let r = store.patch("db", "k", vec![(String::from("f"), KvValue::Null)]);
    assert_eq!(r, Err(KvError::NotFound));
}

#[test]
fn patch_sets_and_overwrites_fields() {
    let mut store = KvStore::new();
    store.put(
        "db",
        "k",
        KvValue::Obj(vec![(String::from("a"), KvValue::Int(1))]),
    );
    let r = store.patch(
        "db",
        "k",
        vec![
            (String::from("a"), KvValue::Int(2)),
            (String::from("b"), KvValue::Bool(true)),
            (String::from("b"), KvValue::Bool(false)),
        ],
    );
    assert_eq!(r, Ok(()));
    match store.get("db", "k") {
        Some(KvValue::Obj(fields)) => {
            assert_eq!(fields.len(), 2);
            assert_eq!(fields[0], (String::from("a"), KvValue::Int(2)));
            assert_eq!(fields[1], (String::from("b"), KvValue::Bool(false)));
        }
        other => panic!("expected an object, got {:?}", other),
    }
}

#[test]
fn insert_many_later_pair_wins() {
    let mut store = KvStore::new();
    store.insert_many(
        "db",
        vec![
            (String::from("x"), KvValue::Int(1)),
            (String::from("y"), KvValue::Int(2)),
            (String::from("x"), KvValue::Int(3)),
        ],
    );
    assert_eq!(store.get("db", "x"), Some(&KvValue::Int(3)));
    assert_eq!(store.get("db", "y"), Some(&KvValue::Int(2)));
}

#[test]
fn delete_many_removes_listed_keys() {
    let mut store = KvStore::new();
    store.put("db", "a", KvValue::Int(1));
    store.put("db", "b", KvValue::Int(2));
    store.put("db", "c", KvValue::Int(3));
    store.delete_many("db", &vec![String::from("a"), String::from("c")]);
    assert_eq!(store.get("db", "a"), None);
    assert_eq!(store.get("db", "b"), Some(&KvValue::Int(2)));
    assert_eq!(store.get("db", "c"), None);
}

#[test]
fn all_and_all_map_list_records_in_order() {
    let mut store = KvStore::new();
    store.put("db", "a", KvValue::Int(1));
    store.put("other", "x", KvValue::Int(9));
    store.put("db", "b", KvValue::Int(2));
    let values = store.all("db");
    assert_eq!(values, vec![&KvValue::Int(1), &KvValue::Int(2)]);
    let pairs = store.all_map("db");
    assert_eq!(pairs.len(), 2);
    assert_eq!(pairs[0].0, "a");
    assert_eq!(*pairs[0].1, KvValue::Int(1));
    assert_eq!(pairs[1].0, "b");
    assert_eq!(*pairs[1].1, KvValue::Int(2));
}

#[test]
fn get_many_and_get_map_report_presence() {
    let mut store = KvStore::new();
    store.put("db", "a", KvValue::Int(1));
    let keys = vec![String::from("a"), String::from("b")];
    let many = store.get_many("db", &keys);
    assert_eq!(many, vec![Some(&KvValue::Int(1)), None]);
    let map = store.get_map("db", &keys);
    assert_eq!(map.len(), 1);
    assert_eq!(map[0].0, "a");
}

#[test]
fn get_filter_map_exact_glob_regex_substring_prefix() {
    let mut store = KvStore::new();
    store.put("db", "user:1", KvValue::Int(1));
    store.put("db", "user:2", KvValue::Int(2));
    store.put("db", "admin", KvValue::Int(3));
    store.put("db", "use", KvValue::Int(4));

    let exact = store.get_filter_map("db", &vec![String::from("admin")]);
    assert_eq!(exact.len(), 1);
    assert_eq!(exact[0].0, "admin");

    let glob = store.get_filter_map("db", &vec![String::from("user:*")]);
    let mut glob_keys: Vec<&str> = glob.iter().map(|p| p.0.as_str()).collect();
    glob_keys.sort();
    assert!(glob_keys.contains(&"user:1"));
    assert!(glob_keys.contains(&"user:2"));

    let rex = store.get_filter_map("db", &vec![String::from("regex:^user:[0-9]$")]);
    assert_eq!(rex.len(), 2);

    // A pattern that is a substring of stored keys matches them; the
    // longest stored key that prefixes the pattern also joins.
    let sub = store.get_filter_map("db", &vec![String::from("user:199")]);
    let sub_keys: Vec<&str> = sub.iter().map(|p| p.0.as_str()).collect();
    assert!(sub_keys.contains(&"user:1"));
}

#[test]
fn obj_set_replaces_in_place_or_appends() {
    let mut fields = vec![(String::from("a"), KvValue::Int(1))];
    bullg::kv::obj_set(&mut fields, String::from("a"), KvValue::Int(2));
    bullg::kv::obj_set(&mut fields, String::from("b"), KvValue::Int(3));
    assert_eq!(fields.len(), 2);
    assert_eq!(fields[0], (String::from("a"), KvValue::Int(2)));
    assert_eq!(fields[1], (String::from("b"), KvValue::Int(3)));
}

#[test]
fn form_bodies_parse_with_percent_decoding() {
    assert_eq!(classify_body("application/json; charset=utf-8"), BodyFormat::Json);
    assert_eq!(
        classify_body("application/x-www-form-urlencoded"),
        BodyFormat::Form
    );
    assert_eq!(classify_body("multipart/form-data; boundary=x"), BodyFormat::Multipart);
    assert_eq!(classify_body("text/plain"), BodyFormat::Opaque);

    let pairs = parse_form(b"a=1&b=hello+world&c=%41%20B&flag&&d=");
    assert_eq!(
        pairs,
        vec![
            (String::from("a"), String::from("1")),
            (String::from("b"), String::from("hello world")),
            (String::from("c"), String::from("A B")),
            (String::from("flag"), String::from("")),
            (String::from("d"), String::from("")),
        ]
    );
}

#[test]
fn percent_decode_leaves_broken_escapes_alone() {
    let pairs = bullg::body::parse_form(b"k=%ZZ%4");
    assert_eq!(pairs, vec![(String::from("k"), String::from("%ZZ%4"))]);
}
