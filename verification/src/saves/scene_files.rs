//! Scene save slots: which slot names are allowed, where a slot is stored, and which scene file
//! versions are read.
use vstd::prelude::*;

use crate::chars::{decimal, push_decimal, push_str, str_chars};

verus! {

/// The scene file format version this build writes and reads.
pub const SCENE_FILE_VERSION: u32 = 1;

/// An ASCII letter or digit, `_` or `-`.
pub open spec fn slot_char(c: char) -> bool {
    ('a' <= c <= 'z') || ('A' <= c <= 'Z') || ('0' <= c <= '9') || c == '_' || c == '-'
}

#[derive(Clone, Copy, Debug, PartialEq, Eq, Structural)]
pub enum SceneIdError {
    Empty,
    InvalidCharacters,
}

/// Why `id` cannot name a slot, if it cannot: it is empty, or holds a character other than ASCII
/// letters, digits, `_` and `-`.
pub open spec fn scene_id_check(id: Seq<char>) -> Result<(), SceneIdError> {
    if id.len() == 0 {
        Err(SceneIdError::Empty)
    } else if !(forall|i: int| 0 <= i < id.len() ==> #[trigger] slot_char(id[i])) {
        Err(SceneIdError::InvalidCharacters)
    } else {
        Ok(())
    }
}

pub fn validate_scene_id(id: &str) -> (r: Result<(), SceneIdError>)
    ensures
        r == scene_id_check(id@),
{
    let chars = str_chars(id);
    if chars.len() == 0 {
        return Err(SceneIdError::Empty);
    }
    let mut i: usize = 0;
    while i < chars.len()
        invariant
            chars@ == id@,
            i <= chars@.len(),
            forall|j: int| 0 <= j < i ==> #[trigger] slot_char(chars@[j]),
        decreases chars@.len() - i,
    {
        let c = chars[i];
        if !(('a' <= c && c <= 'z') || ('A' <= c && c <= 'Z') || ('0' <= c && c <= '9') || c == '_' || c == '-') {
            assert(!slot_char(id@[i as int]));
            return Err(SceneIdError::InvalidCharacters);
        }
        i = i + 1;
    }
    Ok(())
}

impl SceneIdError {
    /// The error's text for the slot name `id`.
    pub fn message(&self, id: &str) -> (m: String)
        ensures
            m@ == match *self {
                SceneIdError::Empty => "scene slot id must not be empty"@,
                SceneIdError::InvalidCharacters => "invalid scene slot id '"@ + id@
                    + "': only [A-Za-z0-9_-] are allowed"@,
            },
    {
        match self {
            SceneIdError::Empty => "scene slot id must not be empty".to_owned(),
            SceneIdError::InvalidCharacters => {
                let mut m = String::new();
                push_str(&mut m, "invalid scene slot id '");
                push_str(&mut m, id);
                push_str(&mut m, "': only [A-Za-z0-9_-] are allowed");
                m
            },
        }
    }
}

/// The file name of slot `id`, `<id>.ron`, when `id` is a valid slot name.
pub fn scene_file_name(id: &str) -> (r: Result<String, SceneIdError>)
    ensures
        match r {
            Ok(name) => scene_id_check(id@) is Ok && name@ == id@ + ".ron"@,
            Err(e) => scene_id_check(id@) == Err::<(), SceneIdError>(e),
        },
{
    match validate_scene_id(id) {
        Ok(()) => {
            let mut name = String::new();
            push_str(&mut name, id);
            push_str(&mut name, ".ron");
            Ok(name)
        },
        Err(e) => Err(e),
    }
}

/// A scene file whose envelope carries `version` is read only when it is this build's version;
/// otherwise the text of the refusal.
pub fn check_scene_file_version(version: u32) -> (r: Result<(), String>)
    ensures
        version == SCENE_FILE_VERSION <==> r is Ok,
        r matches Err(m) ==> m@ == "unsupported scene file version "@ + decimal(version as nat) + " (expected "@
            + decimal(SCENE_FILE_VERSION as nat) + ")"@,
{
    if version == SCENE_FILE_VERSION {
        Ok(())
    } else {
        let mut m = String::new();
        push_str(&mut m, "unsupported scene file version ");
        push_decimal(&mut m, version as u64);
        push_str(&mut m, " (expected ");
        push_decimal(&mut m, SCENE_FILE_VERSION as u64);
        push_str(&mut m, ")");
        Err(m)
    }
}

} // verus!
