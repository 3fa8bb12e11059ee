//! Switches that turn a refinement of prototype recovery on and off.
use crate::error::FspecError;
use vstd::prelude::*;

verus! {

/// The setting that a word stands for: no word is the same as `on`.
pub open spec fn setting(word: Seq<char>) -> Option<bool> {
    if word == ""@ || word == "on"@ {
        Some(true)
    } else if word == "off"@ {
        Some(false)
    } else {
        None
    }
}

/// The setting that a word stands for.
pub fn on_or_off(word: &str) -> (r: Result<bool, FspecError>)
    ensures
        match setting(word@) {
            Some(b) => r == Ok::<bool, FspecError>(b),
            None => r == Err::<bool, FspecError>(FspecError::BadSetting),
        },
{
    let w = word.to_owned();
    let none = "".to_owned();
    let on = "on".to_owned();
    let off = "off".to_owned();
    proof {
        reveal_strlit("");
        reveal_strlit("on");
        reveal_strlit("off");
        assert("off"@.len() == 3 && "on"@.len() == 2 && ""@.len() == 0);
    }
    if w == none || w == on {
        Ok(true)
    } else if w == off {
        Ok(false)
    } else {
        Err(FspecError::BadSetting)
    }
}

/// What is said when a switch is turned: `what`, then `turned on` or
/// `turned off`.
pub open spec fn turned(what: Seq<char>, val: bool) -> Seq<char> {
    what + (if val {
        " turned on"@
    } else {
        " turned off"@
    })
}

/// Turn a switch: the setting that the word stands for, and what is said.
pub fn turn(what: &str, word: &str) -> (r: Result<(bool, String), FspecError>)
    ensures
        match (setting(word@), r) {
            (Some(b), Ok((v, m))) => v == b && m@ == turned(what@, b),
            (None, Err(e)) => e == FspecError::BadSetting,
            _ => false,
        },
{
    match on_or_off(word) {
        Ok(val) => {
            let mut m = what.to_owned();
            m.append(if val {
                " turned on"
            } else {
                " turned off"
            });
            Ok((val, m))
        },
        Err(e) => Err(e),
    }
}

} // verus!
