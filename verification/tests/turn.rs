use chat_memory::turn::{Role, Turn};

#[test]
fn role_tags_are_the_two_literals() {
    assert_eq!(Role::User.tag(), "user");
    assert_eq!(Role::Assistant.tag(), "assistant");
}

#[test]
fn role_from_tag_reads_the_two_literals_only() {
    assert_eq!(Role::from_tag("user"), Some(Role::User));
    assert_eq!(Role::from_tag("assistant"), Some(Role::Assistant));
    for tag in ["", "User", "system", "user ", "assistan", "assistants", "userassistant"] {
        assert_eq!(Role::from_tag(tag), None, "tag {:?}", tag);
    }
}

#[test]
fn role_tag_reads_back_as_the_role() {
    for role in [Role::User, Role::Assistant] {
        assert_eq!(Role::from_tag(&role.tag()), Some(role));
    }
    assert_ne!(Role::User.tag(), Role::Assistant.tag());
}

#[test]
fn turn_new_and_duplicate_keep_every_field() {
    let turn = Turn::new(Role::Assistant, "some text".to_string(), 77);
    assert_eq!(turn.role, Role::Assistant);
    assert_eq!(turn.content, "some text");
    assert_eq!(turn.tokens, 77);
    assert_eq!(turn.duplicate(), turn);
    assert_eq!(turn.duplicate(), Turn { role: Role::Assistant, content: "some text".to_string(), tokens: 77 });
}
