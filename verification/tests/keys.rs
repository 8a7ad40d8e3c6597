use ring_buffer::keys::split_key;

#[test]
fn splits_at_last_dot() {
    let key = String::from("sample.user.name");
    assert_eq!(split_key(&key), Some(("sample.user", "name")));
}

#[test]
fn key_without_dot_does_not_split() {
    let key = String::from("plain");
    assert_eq!(split_key(&key), None);
}

#[test]
fn dot_at_the_ends() {
    let key = String::from("trailing.");
    assert_eq!(split_key(&key), Some(("trailing", "")));
    let key = String::from(".leading");
    assert_eq!(split_key(&key), Some(("", "leading")));
}
