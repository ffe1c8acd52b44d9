//! Settings: optional texts that switch something or give a number.

use vstd::prelude::*;
use vstd::string::*;

use crate::text;

verus! {

/// The setting is the one-character text `c`.
pub open spec fn says(setting: Option<&str>, c: char) -> bool {
    setting matches Some(s) && s@ == seq![c]
}

/// Whether the setting is the one-character text `c`.
pub fn setting_is(setting: Option<&str>, c: char) -> (r: bool)
    ensures
        r == says(setting, c),
{
    match setting {
        Some(s) => {
            let r = s.unicode_len() == 1 && s.get_char(0) == c;
            assert(r <==> s@ =~= seq![c]);
            r
        },
        None => false,
    }
}

/// The number that the setting gives, or `default` where it gives none.
pub open spec fn number(setting: Option<&str>, default: nat, max: nat) -> nat {
    match setting {
        Some(s) => match text::unsigned(s@, max) {
            Some(v) => v,
            None => default,
        },
        None => default,
    }
}

/// The size that the setting gives, or `default` where it gives none.
pub fn number_or(setting: Option<&str>, default: usize) -> (r: usize)
    ensures
        r == number(setting, default as nat, usize::MAX as nat),
{
    match setting {
        Some(s) => {
            let chars = text::chars_of(s);
            match text::parse_unsigned(chars.as_slice(), usize::MAX as u64) {
                Some(v) => v as usize,
                None => default,
            }
        },
        None => default,
    }
}

} // verus!
