use webrtc_transfer::string_map::StringMap;
use webrtc_transfer::tokens::{assign_tokens, new_session_id, pair_tokens};

fn strings(texts: &[&str]) -> Vec<String> {
    texts.iter().map(|text| text.to_string()).collect()
}

fn sorted(mut keys: Vec<String>) -> Vec<String> {
    keys.sort();
    keys
}

fn is_random_uuid(text: &str) -> bool {
    let c: Vec<char> = text.chars().collect();
    c.len() == 36
        && c.iter().enumerate().all(|(i, x)| {
            if [8, 13, 18, 23].contains(&i) {
                *x == '-'
            } else {
                x.is_ascii_digit() || ('a'..='f').contains(x)
            }
        })
        && c[14] == '4'
        && ['8', '9', 'a', 'b'].contains(&c[19])
}

#[test]
fn a_session_id_is_a_random_uuid() {
    let first = new_session_id();
    let second = new_session_id();
    assert!(is_random_uuid(&first));
    assert!(is_random_uuid(&second));
    assert_ne!(first, second);
}

#[test]
fn each_selected_file_gets_a_token() {
    let map = assign_tokens(&strings(&["a", "b", "c"]));
    assert_eq!(sorted(map.keys()), strings(&["a", "b", "c"]));
    for key in map.keys() {
        assert!(is_random_uuid(map.get(&key).unwrap()));
    }
    assert!(map.get(&"d".to_string()).is_none());
}

#[test]
fn no_selection_means_no_token() {
    assert!(assign_tokens(&vec![]).keys().is_empty());
}

#[test]
fn tokens_go_to_their_files() {
    let map = pair_tokens(&strings(&["a", "b", "a"]), &strings(&["1", "2", "3"]));
    assert_eq!(map.get(&"a".to_string()).unwrap(), "3");
    assert_eq!(map.get(&"b".to_string()).unwrap(), "2");
    assert_eq!(sorted(map.keys()), strings(&["a", "b"]));
}

#[test]
fn a_map_keeps_the_last_value_of_a_key() {
    let mut map: StringMap<u64> = StringMap::new();
    assert!(map.get(&"a".to_string()).is_none());
    map.insert("a".to_string(), 1);
    map.insert("b".to_string(), 2);
    map.insert("a".to_string(), 3);
    assert_eq!(map.get(&"a".to_string()), Some(&3));
    assert_eq!(map.get(&"b".to_string()), Some(&2));
    assert_eq!(map.keys().len(), 2);
}
