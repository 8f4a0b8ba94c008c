//! Configuration as named text values: what the provider and the model were
//! set up with, and how a request reads it.

use crate::text::same_text;
use vstd::prelude::*;
use vstd::std_specs::iter::IteratorSpec;
use vstd::string::*;

verus! {

broadcast use vstd::string::group_string_axioms;

/// One setting of a provider: an endpoint, a credential.
#[derive(Debug, Clone)]
pub struct LLMProviderConfig {
    pub name: String,
    pub value: String,
}

/// One setting of a model: a generation parameter, the model's identifier.
/// A setting without a value counts as absent.
#[derive(Debug, Clone)]
pub struct AssistantModelConfig {
    pub name: String,
    pub value: Option<String>,
}

/// A setting by its characters: its name, and its value if it has one.
pub struct SettingView {
    pub name: Seq<char>,
    pub value: Option<Seq<char>>,
}

impl DeepView for LLMProviderConfig {
    type V = SettingView;

    open spec fn deep_view(&self) -> SettingView {
        SettingView { name: self.name@, value: Some(self.value@) }
    }
}

impl DeepView for AssistantModelConfig {
    type V = SettingView;

    open spec fn deep_view(&self) -> SettingView {
        SettingView { name: self.name@, value: self.value.deep_view() }
    }
}

/// The value that `settings` give to `key`: that of the last setting of
/// that name that has a value.
pub open spec fn setting(settings: Seq<SettingView>, key: Seq<char>) -> Option<Seq<char>>
    decreases settings.len(),
{
    if settings.len() == 0 {
        None
    } else if settings.last().name == key && settings.last().value is Some {
        settings.last().value
    } else {
        setting(settings.drop_last(), key)
    }
}

/// Whether `entry` gives `key` a value.
pub open spec fn gives(entry: SettingView, key: Seq<char>) -> bool {
    entry.name == key && entry.value is Some
}

/// The last setting wins: the value of a key is that of a setting that
/// gives it one and has none behind it that does; a key has no value
/// exactly where no setting gives it one.
pub proof fn law_last_setting_wins(settings: Seq<SettingView>, key: Seq<char>)
    ensures
        match setting(settings, key) {
            Some(value) => exists|i: int|
                0 <= i < settings.len() && gives(#[trigger] settings[i], key) && settings[i].value
                    == Some(value) && forall|j: int|
                    i < j < settings.len() ==> !gives(#[trigger] settings[j], key),
            None => forall|i: int| 0 <= i < settings.len() ==> !gives(#[trigger] settings[i], key),
        },
    decreases settings.len(),
{
    if settings.len() > 0 {
        let front = settings.drop_last();
        let n = settings.len() - 1;
        if gives(settings.last(), key) {
            assert(gives(settings[n], key));
        } else {
            law_last_setting_wins(front, key);
            match setting(front, key) {
                Some(value) => {
                    let i = choose|i: int|
                        0 <= i < front.len() && gives(#[trigger] front[i], key) && front[i].value
                            == Some(value) && forall|j: int|
                            i < j < front.len() ==> !gives(#[trigger] front[j], key);
                    assert(gives(settings[i], key) && settings[i].value == Some(value));
                    assert forall|j: int| i < j < settings.len() implies !gives(
                        #[trigger] settings[j],
                        key,
                    ) by {
                        if j < n {
                            assert(front[j] == settings[j]);
                        }
                    }
                },
                None => {
                    assert forall|i: int| 0 <= i < settings.len() implies !gives(
                        #[trigger] settings[i],
                        key,
                    ) by {
                        if i < n {
                            assert(front[i] == settings[i]);
                        }
                    }
                },
            }
        }
    }
}

/// The value that the provider's settings give to `key`.
pub fn provider_setting<'a>(settings: &'a Vec<LLMProviderConfig>, key: &str) -> (value: Option<
    &'a str,
>)
    ensures
        value.deep_view() == setting(settings.deep_view(), key@),
{
    let mut i: usize = settings.len();
    assert(settings.deep_view().take(i as int) =~= settings.deep_view());
    while i > 0
        invariant
            i <= settings@.len(),
            setting(settings.deep_view(), key@) == setting(settings.deep_view().take(i as int), key@),
        decreases i,
    {
        i = i - 1;
        assert(settings.deep_view().take(i + 1).drop_last() =~= settings.deep_view().take(
            i as int,
        ));
        if same_text(settings[i].name.as_str(), key) {
            return Some(settings[i].value.as_str());
        }
    }
    None
}

/// The value that the model's settings give to `key`.
pub fn model_setting<'a>(settings: &'a Vec<AssistantModelConfig>, key: &str) -> (value: Option<
    &'a str,
>)
    ensures
        value.deep_view() == setting(settings.deep_view(), key@),
{
    let mut i: usize = settings.len();
    assert(settings.deep_view().take(i as int) =~= settings.deep_view());
    while i > 0
        invariant
            i <= settings@.len(),
            setting(settings.deep_view(), key@) == setting(settings.deep_view().take(i as int), key@),
        decreases i,
    {
        i = i - 1;
        assert(settings.deep_view().take(i + 1).drop_last() =~= settings.deep_view().take(
            i as int,
        ));
        if same_text(settings[i].name.as_str(), key) {
            match &settings[i].value {
                Some(value) => {
                    return Some(value.as_str());
                },
                None => {},
            }
        }
    }
    None
}

/// Whether `c` is a decimal digit.
pub open spec fn is_digit(c: char) -> bool {
    '0' <= c && c <= '9'
}

/// The number that the digits `s` write in base ten.
pub open spec fn decimal_value(s: Seq<char>) -> nat
    decreases s.len(),
{
    if s.len() == 0 {
        0
    } else {
        decimal_value(s.drop_last()) * 10 + (s.last() as nat - '0' as nat) as nat
    }
}

/// The digits of a number written with an optional sign in front.
pub open spec fn unsigned_part(s: Seq<char>) -> Seq<char> {
    if s.len() > 0 && (s[0] == '-' || s[0] == '+') {
        s.skip(1)
    } else {
        s
    }
}

/// The integer that `s` writes: an optional `+` or `-` and then one or more
/// decimal digits, and nothing else.
pub open spec fn signed_decimal(s: Seq<char>) -> Option<int> {
    let digits = unsigned_part(s);
    if digits.len() > 0 && (forall|i: int| 0 <= i < digits.len() ==> is_digit(digits[i])) {
        if s[0] == '-' {
            Some(-(decimal_value(digits) as int))
        } else {
            Some(decimal_value(digits) as int)
        }
    } else {
        None
    }
}

/// The 32-bit integer that `s` writes, if it writes one that fits.
pub open spec fn decimal_i32(s: Seq<char>) -> Option<i32> {
    match signed_decimal(s) {
        Some(v) => if i32::MIN <= v <= i32::MAX {
            Some(v as i32)
        } else {
            None
        },
        None => None,
    }
}

/// Reads a 32-bit integer in base ten: an optional sign and digits, with no
/// white space and nothing behind them.
pub fn parse_i32(s: &str) -> (value: Option<i32>)
    ensures
        value == decimal_i32(s@),
{
    let mut chars = s.chars();
    let ghost mut i: int = 0;
    let mut at_start: bool = true;
    let mut negative: bool = false;
    let mut signed: bool = false;
    let mut count: u8 = 0;
    let mut magnitude: i64 = 0;
    let limit: i64 = 2147483649;
    loop
        invariant
            0 <= i <= s@.len(),
            chars.remaining() == s@.skip(i),
            limit == 2147483649,
            at_start <==> i == 0,
            signed <==> (i > 0 && (s@[0] == '-' || s@[0] == '+')),
            negative <==> (i > 0 && s@[0] == '-'),
            !signed ==> forall|j: int| 0 <= j < i ==> is_digit(#[trigger] s@[j]),
            signed ==> forall|j: int| 1 <= j < i ==> is_digit(#[trigger] s@[j]),
            count == 0 <==> i == (if signed { 1int } else { 0int }),
            0 <= magnitude <= limit,
            magnitude == vstd::math::min(
                decimal_value(s@.subrange(if signed { 1int } else { 0int }, i)) as int,
                limit as int,
            ),
        decreases s@.len() - i,
    {
        match chars.next() {
            None => {
                proof {
                    assert(s@.subrange(if signed { 1int } else { 0int }, i) =~= unsigned_part(s@));
                }
                if count == 0 {
                    return None;
                }
                if negative {
                    if magnitude <= 2147483648 {
                        return Some((0 - magnitude) as i32);
                    }
                    return None;
                }
                if magnitude <= 2147483647 {
                    return Some(magnitude as i32);
                }
                return None;
            },
            Some(c) => {
                if at_start && (c == '-' || c == '+') {
                    negative = c == '-';
                    signed = true;
                    at_start = false;
                    proof {
                        i = i + 1;
                        assert(s@.subrange(1, 1) =~= Seq::<char>::empty());
                    }
                } else if '0' <= c && c <= '9' {
                    let digit: i64 = (c as u32 - '0' as u32) as i64;
                    proof {
                        let from = if signed { 1int } else { 0int };
                        assert(s@.subrange(from, i + 1).drop_last() =~= s@.subrange(from, i));
                        assert(s@.subrange(from, i + 1).last() == c);
                        i = i + 1;
                    }
                    magnitude = magnitude * 10 + digit;
                    if magnitude > limit {
                        magnitude = limit;
                    }
                    count = 1;
                    at_start = false;
                } else {
                    proof {
                        let digits = unsigned_part(s@);
                        if signed {
                            assert(digits[i - 1] == c);
                        } else if i == 0 && s@.len() > 0 {
                            assert(digits[0] == c);
                        } else {
                            assert(digits[i] == c);
                        }
                    }
                    return None;
                }
            },
        }
    }
}

} // verus!
