//! The stored configuration file: where it lives, what counts as a file
//! with no settings, and what a stored text means.
use vstd::prelude::*;

use crate::model::{config_problem, validate_config, Config};
use crate::text::owned;
use crate::Error;

use crate::text::{is_blank, is_white_space, is_white_space_char, lemma_trim_start_skip, chars_of, trim_start};

verus! {

/// A line with nothing but whitespace, or a comment line: its first
/// character other than whitespace is `#`.
pub open spec fn is_blank_or_comment(line: Seq<char>) -> bool {
    is_blank(line) || trim_start(line)[0] == '#'
}

/// `s[a..b]` is one of the lines of `s`: it lies between two line feeds (or
/// the start or end of `s`) and holds none.
pub open spec fn is_line(s: Seq<char>, a: int, b: int) -> bool {
    &&& 0 <= a <= b <= s.len()
    &&& (a == 0 || s[a - 1] == '\n')
    &&& (b == s.len() || s[b] == '\n')
    &&& forall|k: int| a <= k < b ==> s[k] != '\n'
}

/// Every line is blank or a comment. A carriage return before a line feed
/// is whitespace, so splitting at `"\r\n"` as `str::lines` does gives the
/// same answer.
pub open spec fn effectively_empty(s: Seq<char>) -> bool {
    forall|a: int, b: int| #[trigger] is_line(s, a, b) ==> is_blank_or_comment(s.subrange(a, b))
}

proof fn lemma_line_ok(line: Seq<char>, h: int)
    requires
        h == -1 ==> is_blank(line),
        h != -1 ==> 0 <= h < line.len() && line[h] == '#' && forall|k: int|
            0 <= k < h ==> #[trigger] is_white_space(line[k]),
    ensures
        is_blank_or_comment(line),
{
    if h != -1 {
        lemma_trim_start_skip(line, h);
        let t = line.subrange(h, line.len() as int);
        assert(t[0] == '#');
        assert(!is_white_space(t[0]));
        assert(trim_start(t) == t);
    }
}

/// Whether the text holds no setting: every line is blank or a comment.
pub fn is_effectively_empty(contents: &str) -> (r: bool)
    ensures
        r == effectively_empty(contents@),
{
    let v = chars_of(contents);
    let ghost s = contents@;
    let n = v.len();
    let mut in_comment = false;
    let ghost mut line_start: int = 0;
    let ghost mut hash_at: int = -1;
    let mut i: usize = 0;
    while i < n
        invariant
            i <= n,
            n == s.len(),
            v@ == s,
            s == contents@,
            0 <= line_start <= i,
            line_start == 0 || s[line_start - 1] == '\n',
            forall|k: int| line_start <= k < i ==> s[k] != '\n',
            in_comment ==> line_start <= hash_at < i && s[hash_at] == '#',
            in_comment ==> forall|k: int| line_start <= k < hash_at ==> #[trigger] is_white_space(s[k]),
            !in_comment ==> hash_at == -1,
            !in_comment ==> forall|k: int| line_start <= k < i ==> #[trigger] is_white_space(s[k]),
            forall|a: int, b: int| #[trigger] is_line(s, a, b) && b < i ==> is_blank_or_comment(s.subrange(a, b)),
        decreases n - i,
    {
        let c = v[i];
        if c == '\n' {
            proof {
                let line = s.subrange(line_start, i as int);
                assert forall|k: int| 0 <= k < line.len() && k < hash_at - line_start implies #[trigger] is_white_space(line[k]) by {
                    assert(line[k] == s[line_start + k]);
                }
                if in_comment {
                    assert(line[hash_at - line_start] == '#');
                    lemma_line_ok(line, hash_at - line_start);
                } else {
                    assert forall|k: int| 0 <= k < line.len() implies #[trigger] is_white_space(line[k]) by {
                        assert(line[k] == s[line_start + k]);
                    }
                    lemma_line_ok(line, -1);
                }
                assert forall|a: int, b: int| #[trigger] is_line(s, a, b) && b < i + 1 implies is_blank_or_comment(s.subrange(a, b)) by {
                    if b == i {
                        if a < line_start {
                            assert(s[line_start - 1] == '\n');
                        }
                        if a > line_start {
                            assert(s[a - 1] == '\n');
                        }
                        assert(a == line_start);
                    }
                }
                line_start = i + 1;
                hash_at = -1;
            }
            in_comment = false;
        } else if in_comment || is_white_space_char(c) {
        } else if c == '#' {
            in_comment = true;
            proof {
                hash_at = i as int;
            }
        } else {
            let mut e: usize = i;
            while e < n && v[e] != '\n'
                invariant
                    i <= e <= n,
                    n == s.len(),
                    v@ == s,
                    forall|k: int| i <= k < e ==> s[k] != '\n',
                decreases n - e,
            {
                e = e + 1;
            }
            proof {
                assert(is_line(s, line_start, e as int));
                let line = s.subrange(line_start, e as int);
                let h = i - line_start;
                assert(line[h] == c);
                assert forall|k: int| 0 <= k < h implies #[trigger] is_white_space(line[k]) by {
                    assert(line[k] == s[line_start + k]);
                }
                lemma_trim_start_skip(line, h);
                let t = line.subrange(h, line.len() as int);
                assert(t[0] == c);
                assert(trim_start(t) == t);
                assert(!is_blank(line));
                assert(!is_blank_or_comment(line));
            }
            return false;
        }
        i = i + 1;
    }
    proof {
        assert forall|a: int, b: int| #[trigger] is_line(s, a, b) implies is_blank_or_comment(s.subrange(a, b)) by {
            if b == n {
                if a < line_start {
                    assert(s[line_start - 1] == '\n');
                }
                if a > line_start {
                    assert(s[a - 1] == '\n');
                }
                let line = s.subrange(line_start, n as int);
                if in_comment {
                    assert forall|k: int| 0 <= k < hash_at - line_start implies #[trigger] is_white_space(line[k]) by {
                        assert(line[k] == s[line_start + k]);
                    }
                    lemma_line_ok(line, hash_at - line_start);
                } else {
                    assert forall|k: int| 0 <= k < line.len() implies #[trigger] is_white_space(line[k]) by {
                        assert(line[k] == s[line_start + k]);
                    }
                    lemma_line_ok(line, -1);
                }
            }
        }
    }
    true
}

/// The directory under which the configuration file lives.
#[derive(PartialEq, Eq, Structural, Clone, Copy, Debug)]
pub enum ConfigBase {
    /// `$XDG_CONFIG_HOME`, with `CONFIG_UNDER_XDG` below it.
    XdgConfigHome,
    /// `$HOME`, with `CONFIG_UNDER_HOME` below it.
    Home,
}

pub const CONFIG_UNDER_XDG: &'static str = "cmdnavi/config.yaml";

pub const CONFIG_UNDER_HOME: &'static str = ".config/cmdnavi/config.yaml";

/// An environment variable that is set to something.
pub open spec fn is_set(value: Option<&[u8]>) -> bool {
    value matches Some(v) && v@.len() > 0
}

pub open spec fn no_location_message() -> Seq<char> {
    "the configuration location could not be determined.\nSet HOME or XDG_CONFIG_HOME and try again."@
}

/// Chooses where the configuration lives from the values of
/// `$XDG_CONFIG_HOME` and `$HOME` (missing or empty counts as unset):
/// the first, else the second, else neither can be used.
pub fn config_base(xdg_config_home: Option<&[u8]>, home: Option<&[u8]>) -> (r: Result<
    ConfigBase,
    Error,
>)
    ensures
        match r {
            Ok(base) => if is_set(xdg_config_home) {
                base == ConfigBase::XdgConfigHome
            } else {
                is_set(home) && base == ConfigBase::Home
            },
            Err(e) => !is_set(xdg_config_home) && !is_set(home) && e.0@ == no_location_message(),
        },
{
    match xdg_config_home {
        Some(v) => {
            if v.len() > 0 {
                return Ok(ConfigBase::XdgConfigHome);
            }
        },
        None => {},
    }
    match home {
        Some(v) => {
            if v.len() > 0 {
                return Ok(ConfigBase::Home);
            }
        },
        None => {},
    }
    Err(
        Error(
            owned(
                "the configuration location could not be determined.\nSet HOME or XDG_CONFIG_HOME and try again.",
            ),
        ),
    )
}

/// The configuration that a stored text holds, from the configuration that
/// YAML made of it (or the YAML error): a text without settings holds an
/// empty configuration; any other must have parsed and must be valid.
pub fn parse(contents: &str, parsed: Result<Config, String>) -> (r: Result<Config, String>)
    ensures
        effectively_empty(contents@) ==> (r matches Ok(c) && c@.len() == 0),
        !effectively_empty(contents@) ==> match parsed {
            Err(e) => r matches Err(f) && f@ == e@,
            Ok(c) => match config_problem(c@) {
                Some(p) => r matches Err(f) && f@ == p,
                None => r matches Ok(d) && d@ == c@,
            },
        },
{
    if is_effectively_empty(contents) {
        return Ok(Config::new());
    }
    let config = match parsed {
        Err(e) => {
            return Err(e);
        },
        Ok(c) => c,
    };
    match validate_config(&config) {
        Err(p) => Err(p),
        Ok(()) => Ok(config),
    }
}

} // verus!
