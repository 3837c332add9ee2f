//! Settings that come from the environment.
use vstd::prelude::*;

use crate::text::{
    all_space, decimal, law_numbers_are_told_from_other_texts, law_spaced_number_is_read,
    parse_unsigned, parse_unsigned_trimmed, parsed_unsigned, trimmed,
};

verus! {

/// The largest `usize`.
pub open spec fn usize_limit() -> nat {
    usize::MAX as nat
}

/// The value of a setting that has to be positive, or its default where it is not
/// set, not a number, too large, or zero.
pub open spec fn positive_setting(text: Option<Seq<char>>, max: nat, default: nat) -> nat {
    match text {
        None => default,
        Some(text) => match parsed_unsigned(trimmed(text), max) {
            Some(n) => if n > 0 {
                n
            } else {
                default
            },
            None => default,
        },
    }
}

/// The value of a setting, or its default where it is not set, not a number, or
/// too large.
pub open spec fn plain_setting(text: Option<Seq<char>>, max: nat, default: nat) -> nat {
    match text {
        None => default,
        Some(text) => match parsed_unsigned(trimmed(text), max) {
            Some(n) => n,
            None => default,
        },
    }
}

/// The text of a setting.
pub open spec fn setting_text(text: Option<&str>) -> Option<Seq<char>> {
    match text {
        Some(text) => Some(text@),
        None => None,
    }
}

/// Reads a setting that has to be positive.
pub fn read_positive(text: Option<&str>, max: u64, default: u64) -> (value: u64)
    ensures
        value == positive_setting(setting_text(text), max as nat, default as nat),
{
    match text {
        None => default,
        Some(text) => match parse_unsigned_trimmed(text, max) {
            Some(n) => {
                if n > 0 {
                    n
                } else {
                    default
                }
            },
            None => default,
        },
    }
}

/// Reads a setting.
pub fn read_plain(text: Option<&str>, max: u64, default: u64) -> (value: u64)
    ensures
        value == plain_setting(setting_text(text), max as nat, default as nat),
{
    match text {
        None => default,
        Some(text) => match parse_unsigned_trimmed(text, max) {
            Some(n) => n,
            None => default,
        },
    }
}

/// A number that is written on the command line or in the environment, without
/// anything around it.
pub open spec fn written_number(text: Option<Seq<char>>) -> Option<nat> {
    match text {
        Some(text) => parsed_unsigned(text, usize_limit()),
        None => None,
    }
}

/// Reads a number.
pub fn read_number(text: Option<&str>) -> (number: Option<usize>)
    ensures
        match number {
            Some(n) => written_number(setting_text(text)) == Some(n as nat),
            None => written_number(setting_text(text)) is None,
        },
{
    match text {
        Some(text) => match parse_unsigned(text, usize::MAX as u64) {
            Some(n) => Some(n as usize),
            None => None,
        },
        None => None,
    }
}

/// A setting is the number that is written, with white space around it or without,
/// where it is not too large and, if it has to be positive, not zero; and else its
/// default.
pub proof fn law_settings_are_read(
    before: Seq<char>,
    n: nat,
    after: Seq<char>,
    max: nat,
    default: nat,
)
    requires
        all_space(before),
        all_space(after),
    ensures
        positive_setting(Some(before + decimal(n) + after), max, default) == if 0 < n <= max {
            n
        } else {
            default
        },
        plain_setting(Some(before + decimal(n) + after), max, default) == if n <= max {
            n
        } else {
            default
        },
        positive_setting(None, max, default) == default,
        plain_setting(None, max, default) == default,
{
    law_spaced_number_is_read(before, n, after, max);
}

/// A number on a command line is read where nothing stands around it.
pub proof fn law_written_numbers_are_read(n: nat)
    ensures
        written_number(Some(decimal(n))) == if n <= usize::MAX {
            Some(n)
        } else {
            None
        },
        written_number(None) is None,
        usize_limit() == usize::MAX,
{
    law_numbers_are_told_from_other_texts(n, usize_limit(), decimal(n), -1);
}

} // verus!
