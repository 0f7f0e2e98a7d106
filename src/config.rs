//! The daemon's settings and the parser of the configuration file.
//!
//! The file holds `key=value` lines; `check_interval` is the one key read,
//! and other keys are ignored. A value that is not a positive integer gives
//! the default. Blank lines are skipped; any other line without `=` fails
//! the whole file.

use vstd::prelude::*;

use crate::error::SwytError;
use crate::text::{
    chars_of, is_blank, is_blank_chars, lemma_split_nonempty, lines, lines_of, parse_u32,
    same_chars, split, split_on, trim, trim_chars, u32_value,
};

verus! {

/// Seconds between two scan passes when the configuration names none.
pub const DEFAULT_CHECK_INTERVAL: u32 = 60;

/// The daemon's settings.
#[derive(Debug)]
pub struct Configuration {
    check_interval: u32,
}

impl View for Configuration {
    type V = u32;

    /// Seconds between two scan passes.
    closed spec fn view(&self) -> u32 {
        self.check_interval
    }
}

impl Configuration {
    #[verifier::type_invariant]
    spec fn inv(self) -> bool {
        self.check_interval > 0
    }

    /// Seconds between two scan passes; never zero.
    pub fn check_interval(&self) -> (r: u32)
        ensures
            r == self@,
            r > 0,
    {
        proof {
            use_type_invariant(self);
        }
        self.check_interval
    }
}

impl Default for Configuration {
    fn default() -> (r: Configuration)
        ensures
            r@ == DEFAULT_CHECK_INTERVAL,
    {
        Configuration { check_interval: DEFAULT_CHECK_INTERVAL }
    }
}

/// The interval that a `check_interval` value gives: the number it holds
/// when that is a positive `u32`, the default otherwise.
pub open spec fn interval_value(v: Seq<char>) -> u32 {
    match u32_value(v) {
        Some(n) => if n > 0 {
            n
        } else {
            DEFAULT_CHECK_INTERVAL
        },
        None => DEFAULT_CHECK_INTERVAL,
    }
}

/// The interval after the line `line`, when it was `cur` before, or `None`
/// when the line has no `=`. The key is the text before the first `=`, the
/// value the text between it and the next `=` (or the end), both trimmed.
pub open spec fn config_line_spec(line: Seq<char>, cur: u32) -> Option<u32> {
    let parts = split(line, '=');
    if parts.len() < 2 {
        None
    } else if trim(parts[0]) == "check_interval"@ {
        Some(interval_value(trim(parts[1])))
    } else {
        Some(cur)
    }
}

/// The interval that the lines give, one after the other from the default,
/// or `None` where a line that is not blank has no `=`.
pub open spec fn config_spec(lines: Seq<Seq<char>>) -> Option<u32>
    decreases lines.len(),
{
    if lines.len() == 0 {
        Some(DEFAULT_CHECK_INTERVAL)
    } else {
        match config_spec(lines.drop_last()) {
            None => None,
            Some(cur) => if is_blank(lines.last()) {
                Some(cur)
            } else {
                config_line_spec(lines.last(), cur)
            },
        }
    }
}

/// Applies one configuration line to `config`.
pub fn parse_config_line(line: &Vec<char>, config: &mut Configuration) -> (r: Result<(), SwytError>)
    ensures
        match config_line_spec(line@, old(config)@) {
            Some(v) => r is Ok && final(config)@ == v,
            None => r matches Err(SwytError::ConfigParseError) && final(config)@ == old(config)@,
        },
{
    let parts = split_on(line, '=');
    proof {
        lemma_split_nonempty(line@, '=');
    }
    if parts.len() < 2 {
        return Err(SwytError::ConfigParseError);
    }
    assert(parts@[0]@ == split(line@, '=')[0]);
    assert(parts@[1]@ == split(line@, '=')[1]);
    let identifier = trim_chars(&parts[0]);
    let key = chars_of("check_interval");
    if same_chars(&identifier, &key) {
        let value = trim_chars(&parts[1]);
        let interval = match parse_u32(&value) {
            Some(n) => if n > 0 {
                n
            } else {
                DEFAULT_CHECK_INTERVAL
            },
            None => DEFAULT_CHECK_INTERVAL,
        };
        *config = Configuration { check_interval: interval };
    }
    Ok(())
}

/// Reads a configuration file's text.
pub fn parse_config_text(text: &str) -> (r: Result<Configuration, SwytError>)
    ensures
        match config_spec(lines_of(text@)) {
            Some(v) => r matches Ok(c) && c@ == v,
            None => r matches Err(SwytError::ConfigParseError),
        },
{
    let ls = lines(text);
    let ghost l = lines_of(text@);
    let mut config = Configuration::default();
    let mut k: usize = 0;
    while k < ls.len()
        invariant
            l == lines_of(text@),
            ls@.len() == l.len(),
            forall|j: int| 0 <= j < ls@.len() ==> #[trigger] ls@[j]@ == l[j],
            k <= l.len(),
            config_spec(l.take(k as int)) == Some(config@),
        decreases l.len() - k,
    {
        assert(l.take(k + 1).drop_last() =~= l.take(k as int));
        if !is_blank_chars(&ls[k]) {
            match parse_config_line(&ls[k], &mut config) {
                Ok(()) => {},
                Err(e) => {
                    proof {
                        lemma_config_spec_fails(l, k + 1);
                    }
                    return Err(e);
                },
            }
        }
        k = k + 1;
    }
    assert(l.take(k as int) =~= l);
    Ok(config)
}

proof fn lemma_config_spec_fails(l: Seq<Seq<char>>, k: int)
    requires
        0 <= k <= l.len(),
        config_spec(l.take(k)) is None,
    ensures
        config_spec(l) is None,
    decreases l.len() - k,
{
    if k < l.len() {
        assert(l.take(k + 1).drop_last() =~= l.take(k));
        lemma_config_spec_fails(l, k + 1);
    } else {
        assert(l.take(k) =~= l);
    }
}

}
