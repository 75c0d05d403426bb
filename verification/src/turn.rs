//! Turns of a conversation, in memory and in their recorded form.

use vstd::prelude::*;

verus! {

/// Who spoke a turn.
#[derive(Clone, Copy, Debug, PartialEq, Eq, Hash, Structural)]
pub enum Role {
    User,
    Assistant,
}

/// The tag under which the user's turns are recorded and sent.
pub open spec fn user_tag() -> Seq<char> {
    seq!['u', 's', 'e', 'r']
}

/// The tag under which the assistant's turns are recorded and sent.
pub open spec fn assistant_tag() -> Seq<char> {
    seq!['a', 's', 's', 'i', 's', 't', 'a', 'n', 't']
}

/// The tag of a role.
pub open spec fn tag_of(role: Role) -> Seq<char> {
    match role {
        Role::User => user_tag(),
        Role::Assistant => assistant_tag(),
    }
}

/// The role that a tag names, if it names one.
pub open spec fn role_of(tag: Seq<char>) -> Option<Role> {
    if tag == user_tag() {
        Some(Role::User)
    } else if tag == assistant_tag() {
        Some(Role::Assistant)
    } else {
        None
    }
}

/// Reading a role's tag gives the role back, so the two tags name two roles.
pub proof fn lemma_tag_names_its_role(role: Role)
    ensures
        role_of(tag_of(role)) == Some(role),
{
    assert(user_tag().len() == 4);
    assert(assistant_tag().len() == 9);
}

/// A tag that names a role is that role's tag.
pub proof fn lemma_role_has_one_tag(tag: Seq<char>)
    ensures
        role_of(tag) matches Some(role) ==> tag_of(role) == tag,
{
}

impl Role {
    /// The tag of this role.
    pub fn tag(self) -> (t: String)
        ensures
            t@ == tag_of(self),
    {
        proof {
            reveal_strlit("user");
            reveal_strlit("assistant");
        }
        match self {
            Role::User => {
                assert("user"@ =~= user_tag());
                "user".to_owned()
            },
            Role::Assistant => {
                assert("assistant"@ =~= assistant_tag());
                "assistant".to_owned()
            },
        }
    }

    /// The role that `tag` names: `None` unless it is one of the two tags,
    /// letter for letter.
    pub fn from_tag(tag: &str) -> (r: Option<Role>)
        ensures
            r == role_of(tag@),
    {
        proof {
            reveal_strlit("user");
            reveal_strlit("assistant");
            assert("user"@ =~= user_tag());
            assert("assistant"@ =~= assistant_tag());
        }
        let given: String = tag.to_owned();
        let user: String = "user".to_owned();
        let assistant: String = "assistant".to_owned();
        if given == user {
            Some(Role::User)
        } else if given == assistant {
            Some(Role::Assistant)
        } else {
            None
        }
    }
}

/// One logged message: who spoke, what was said, and what it cost.
#[derive(Clone, Debug, PartialEq, Eq)]
pub struct Turn {
    pub role: Role,
    pub content: String,
    /// The cost of this turn in tokens, fixed when the turn is written.
    pub tokens: u64,
}

/// A turn as a mathematical value.
pub struct TurnView {
    pub role: Role,
    pub content: Seq<char>,
    pub tokens: nat,
}

impl View for Turn {
    type V = TurnView;

    open spec fn view(&self) -> TurnView {
        TurnView { role: self.role, content: self.content@, tokens: self.tokens as nat }
    }
}

impl DeepView for Turn {
    type V = TurnView;

    open spec fn deep_view(&self) -> TurnView {
        self@
    }
}

impl Turn {
    /// A turn with the given fields.
    pub fn new(role: Role, content: String, tokens: u64) -> (t: Turn)
        ensures
            t.role == role,
            t.content == content,
            t.tokens == tokens,
    {
        Turn { role, content, tokens }
    }

    /// A copy of this turn.
    pub fn duplicate(&self) -> (t: Turn)
        ensures
            t == *self,
    {
        Turn { role: self.role, content: self.content.clone(), tokens: self.tokens }
    }
}

} // verus!
