//! Settings of one deployment, read from decimal text.
use vstd::prelude::*;
use vstd::string::{StrSliceExecFns, StringExecFns};

verus! {

/// The deployment: which schedule to follow, which guild to fill, and the
/// bot that acts there.
#[derive(Clone, Debug, PartialEq, Eq)]
pub struct Config {
    pub broadcast_id: u32,
    pub guild_id: u64,
    pub bot_token: String,
    pub bot_id: u128,
}

/// The setting that could not be read as a number in range.
#[derive(Clone, Copy, Debug, PartialEq, Eq, Structural)]
pub enum ConfigError {
    BroadcastId,
    GuildId,
    BotId,
}

pub open spec fn is_digit(c: char) -> bool {
    '0' <= c <= '9'
}

pub open spec fn all_digits(s: Seq<char>) -> bool {
    forall|i: int| 0 <= i < s.len() ==> is_digit(#[trigger] s[i])
}

/// The value of a string of decimal digits.
pub open spec fn digits_value(s: Seq<char>) -> nat
    decreases s.len(),
{
    if s.len() == 0 {
        0
    } else {
        digits_value(s.drop_last()) * 10 + (s.last() as nat - '0' as nat) as nat
    }
}

/// The digits of a decimal number, after an optional leading `+`.
pub open spec fn digits_part(s: Seq<char>) -> Seq<char> {
    if s.len() > 0 && s[0] == '+' {
        s.drop_first()
    } else {
        s
    }
}

/// The number that `s` writes in decimal (one or more digits, after an
/// optional leading `+`), if it is one no larger than `max`.
pub open spec fn decimal_of(s: Seq<char>, max: nat) -> Option<nat> {
    let d = digits_part(s);
    if d.len() > 0 && all_digits(d) && digits_value(d) <= max {
        Some(digits_value(d))
    } else {
        None
    }
}

proof fn lemma_value_grows(s: Seq<char>, k: int)
    requires
        all_digits(s),
        0 <= k <= s.len(),
    ensures
        digits_value(s.subrange(0, k)) <= digits_value(s),
    decreases s.len() - k,
{
    if k < s.len() {
        lemma_value_grows(s, k + 1);
        assert(s.subrange(0, k + 1).drop_last() =~= s.subrange(0, k));
        assert(is_digit(s[k]));
    } else {
        assert(s.subrange(0, k) =~= s);
    }
}

/// Reads a decimal number no larger than `max`, with an optional leading
/// `+`; `None` for anything else.
pub fn parse_decimal(text: &str, max: u128) -> (r: Option<u128>)
    ensures
        r matches Some(v) ==> decimal_of(text@, max as nat) == Some(v as nat),
        r is None ==> decimal_of(text@, max as nat) is None,
{
    let n = text.unicode_len();
    let start: usize = if n > 0 && text.get_char(0) == '+' { 1 } else { 0 };
    let ghost digits = digits_part(text@);
    assert(digits =~= text@.subrange(start as int, n as int));
    if n == start {
        return None;
    }
    let mut value: u128 = 0;
    let mut i: usize = start;
    while i < n
        invariant
            n == text@.len(),
            start <= i <= n,
            digits == digits_part(text@),
            digits == text@.subrange(start as int, n as int),
            all_digits(text@.subrange(start as int, i as int)),
            value as nat == digits_value(text@.subrange(start as int, i as int)),
            value <= max,
        decreases n - i,
    {
        let c = text.get_char(i);
        assert(text@.subrange(start as int, i + 1).drop_last() =~= text@.subrange(start as int, i as int));
        assert(digits.subrange(0, i + 1 - start) =~= text@.subrange(start as int, i + 1));
        if c < '0' || c > '9' {
            assert(!is_digit(digits[i - start]));
            return None;
        }
        let d: u128 = (c as u32 - '0' as u32) as u128;
        if d > max || value > (max - d) / 10 {
            proof {
                if d <= max {
                    assert(value * 10 + d > max) by (nonlinear_arith)
                        requires
                            value > (max - d) / 10,
                            d <= max,
                    ;
                }
                if all_digits(digits) {
                    lemma_value_grows(digits, i + 1 - start);
                }
            }
            return None;
        }
        proof {
            assert(value * 10 + d <= max) by (nonlinear_arith)
                requires
                    value <= (max - d) / 10,
                    d <= max,
            ;
        }
        value = value * 10 + d;
        i = i + 1;
    }
    Some(value)
}

impl Config {
    /// The configuration that the four settings write, the identifiers in
    /// decimal. Fails on the first identifier that is not a decimal number
    /// within the range of its field.
    pub fn load(broadcast_id: &str, guild_id: &str, bot_token: &str, bot_id: &str) -> (r: Result<Config, ConfigError>)
        ensures
            r matches Ok(c) ==> {
                &&& decimal_of(broadcast_id@, u32::MAX as nat) == Some(c.broadcast_id as nat)
                &&& decimal_of(guild_id@, u64::MAX as nat) == Some(c.guild_id as nat)
                &&& decimal_of(bot_id@, u128::MAX as nat) == Some(c.bot_id as nat)
                &&& c.bot_token@ == bot_token@
            },
            r == Err::<Config, ConfigError>(ConfigError::BroadcastId) <==> decimal_of(broadcast_id@, u32::MAX as nat) is None,
            r == Err::<Config, ConfigError>(ConfigError::GuildId) <==> (decimal_of(broadcast_id@, u32::MAX as nat) is Some
                && decimal_of(guild_id@, u64::MAX as nat) is None),
            r == Err::<Config, ConfigError>(ConfigError::BotId) <==> (decimal_of(broadcast_id@, u32::MAX as nat) is Some
                && decimal_of(guild_id@, u64::MAX as nat) is Some && decimal_of(bot_id@, u128::MAX as nat) is None),
    {
        let broadcast = match parse_decimal(broadcast_id, u32::MAX as u128) {
            Some(v) => v as u32,
            None => {
                return Err(ConfigError::BroadcastId);
            },
        };
        let guild = match parse_decimal(guild_id, u64::MAX as u128) {
            Some(v) => v as u64,
            None => {
                return Err(ConfigError::GuildId);
            },
        };
        let bot = match parse_decimal(bot_id, u128::MAX) {
            Some(v) => v,
            None => {
                return Err(ConfigError::BotId);
            },
        };
        Ok(Config {
            broadcast_id: broadcast,
            guild_id: guild,
            bot_token: String::from_str(bot_token),
            bot_id: bot,
        })
    }
}

} // verus!
