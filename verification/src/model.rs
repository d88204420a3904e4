//! Sessions, messages and message roles.
use vstd::prelude::*;

use crate::util::str_eq;

verus! {

/// The author of a message.
#[derive(Debug, Clone, Copy, PartialEq, Eq, Structural)]
pub enum Role {
    System,
    User,
    Assistant,
}

/// The protocol name of a role.
pub open spec fn role_name(r: Role) -> Seq<char> {
    match r {
        Role::System => "system"@,
        Role::User => "user"@,
        Role::Assistant => "assistant"@,
    }
}

/// The role whose protocol name is `s`.
pub open spec fn role_named(s: Seq<char>) -> Option<Role> {
    if s == "system"@ {
        Some(Role::System)
    } else if s == "user"@ {
        Some(Role::User)
    } else if s == "assistant"@ {
        Some(Role::Assistant)
    } else {
        None
    }
}

impl Role {
    /// The protocol name: `system`, `user` or `assistant`.
    pub fn as_str(&self) -> (r: &'static str)
        ensures
            r@ == role_name(*self),
    {
        match self {
            Role::System => "system",
            Role::User => "user",
            Role::Assistant => "assistant",
        }
    }

    /// The role with the protocol name `s`, if any.
    pub fn parse(s: &str) -> (r: Option<Role>)
        ensures
            r == role_named(s@),
    {
        if str_eq(s, "system") {
            Some(Role::System)
        } else if str_eq(s, "user") {
            Some(Role::User)
        } else if str_eq(s, "assistant") {
            Some(Role::Assistant)
        } else {
            None
        }
    }
}

/// Parsing the protocol name of a role gives the role back.
pub proof fn lemma_role_name_roundtrip(r: Role)
    ensures
        role_named(role_name(r)) == Some(r),
{
    reveal_strlit("system");
    reveal_strlit("user");
    reveal_strlit("assistant");
    assert("user"@ != "system"@) by {
        assert("user"@.len() != "system"@.len());
    }
    assert("assistant"@ != "system"@) by {
        assert("assistant"@.len() != "system"@.len());
    }
    assert("assistant"@ != "user"@) by {
        assert("assistant"@.len() != "user"@.len());
    }
}

/// A stored chat message.
#[derive(Debug, Clone)]
pub struct Message {
    pub id: i64,
    pub session_id: i64,
    pub role: Role,
    pub content: String,
    /// Reasoning text of the reply (`reasoning_content`), if any.
    pub reasoning: Option<String>,
    pub created_at: i64,
}

/// A conversation.
#[derive(Debug, Clone)]
pub struct Session {
    pub id: i64,
    pub title: String,
    pub provider: String,
    pub model: String,
    pub system_prompt: Option<String>,
    pub created_at: i64,
    pub updated_at: i64,
}

impl Session {
    /// The title of a session that has not been named yet.
    pub const DEFAULT_TITLE: &'static str = "新会话";
}

} // verus!
