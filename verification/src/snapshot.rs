//! A captured environment: `KEY=value` lines parsed into a read-only
//! lookup table in which the last occurrence of a key wins.

use crate::strutil::first_index_of;
use crate::strutil::lemma_first_index_at;
use crate::strutil::lemma_first_index_of;
use crate::strutil::split_on;
use crate::strutil::trim_end_spaces;
use crate::strutil::find_char;
use crate::strutil::split_str;
use crate::strutil::str_eq;
use crate::strutil::trim_end_str;
use vstd::prelude::*;
use vstd::string::StrSliceExecFns;

verus! {

/// The lookup table described by a sequence of `(key, value)` entries:
/// entries are inserted in order, so a later entry overwrites an earlier
/// one with the same key.
pub open spec fn env_map(entries: Seq<(Seq<char>, Seq<char>)>) -> Map<Seq<char>, Seq<char>>
    decreases entries.len(),
{
    if entries.len() == 0 {
        Map::<Seq<char>, Seq<char>>::empty()
    } else {
        env_map(entries.drop_last()).insert(entries.last().0, entries.last().1)
    }
}

/// One line of captured environment text split at its first `=` into a
/// key and a value; a line without `=` is the parse failure, carrying the
/// offending line.
pub open spec fn parse_line(line: Seq<char>) -> Result<(Seq<char>, Seq<char>), Seq<char>> {
    let i = first_index_of(line, '=');
    if i < 0 {
        Err(line)
    } else {
        Ok((line.subrange(0, i), line.subrange(i + 1, line.len() as int)))
    }
}

/// The entries of a sequence of lines, or the first offending line: a
/// single malformed line fails the whole parse.
pub open spec fn parse_lines(lines: Seq<Seq<char>>) -> Result<
    Seq<(Seq<char>, Seq<char>)>,
    Seq<char>,
>
    decreases lines.len(),
{
    if lines.len() == 0 {
        Ok(Seq::<(Seq<char>, Seq<char>)>::empty())
    } else {
        match parse_line(lines[0]) {
            Err(e) => Err(e),
            Ok(entry) => match parse_lines(lines.drop_first()) {
                Ok(rest) => Ok(seq![entry] + rest),
                Err(e) => Err(e),
            },
        }
    }
}

/// What parsing captured environment text yields: trailing whitespace is
/// trimmed, the text is split on newlines, and every line must contain
/// an `=`.
pub open spec fn parse_env_spec(text: Seq<char>) -> Result<Seq<(Seq<char>, Seq<char>)>, Seq<char>> {
    parse_lines(split_on(trim_end_spaces(text), '\n'))
}

/// A parsed environment snapshot: an ordered list of `(key, value)`
/// entries, looked up with last-occurrence-wins semantics and treated as
/// read-only after construction.
#[derive(Debug)]
pub struct EnvSnapshot {
    /// The entries in the order the captured text gave them.
    pub entries: Vec<(String, String)>,
}

/// The parse failure: a line of captured environment text with no `=`.
#[derive(Debug)]
pub struct EnvParseError {
    /// The offending line, verbatim.
    pub line: String,
}

impl View for EnvSnapshot {
    type V = Seq<(Seq<char>, Seq<char>)>;

    open spec fn view(&self) -> Seq<(Seq<char>, Seq<char>)> {
        self.entries.deep_view()
    }
}

impl EnvSnapshot {
    /// The lookup table this snapshot describes.
    pub open spec fn as_map(&self) -> Map<Seq<char>, Seq<char>> {
        env_map(self@)
    }

    /// The value of `key`, if any entry carries it; with duplicate keys
    /// the last entry wins.
    pub fn get(&self, key: &str) -> (r: Option<&String>)
        ensures
            match r {
                Some(v) => self.as_map().contains_key(key@) && v@ == self.as_map()[key@],
                None => !self.as_map().contains_key(key@),
            },
    {
        let n = self.entries.len();
        let mut i: usize = n;
        proof {
            assert(self@.subrange(0, n as int) =~~= self@);
            lemma_env_map_prefix(self@, n as int);
        }
        while i > 0
            invariant
                i <= n,
                n == self.entries.len(),
                self@.len() == n,
                env_map(self@).contains_key(key@) == env_map(self@.subrange(0, i as int))
                    .contains_key(key@),
                env_map(self@).contains_key(key@) ==> env_map(self@)[key@] == env_map(
                    self@.subrange(0, i as int),
                )[key@],
            decreases i,
        {
            let ghost pre = self@.subrange(0, i as int);
            proof {
                assert(pre.drop_last() =~~= self@.subrange(0, i - 1));
                assert(pre.last() == self@[i - 1]);
                assert(env_map(pre) == env_map(self@.subrange(0, i - 1)).insert(
                    self@[i - 1].0,
                    self@[i - 1].1,
                ));
            }
            if str_eq(self.entries[i - 1].0.as_str(), key) {
                return Some(&self.entries[i - 1].1);
            }
            i = i - 1;
        }
        proof {
            assert(self@.subrange(0, 0) =~~= Seq::<(Seq<char>, Seq<char>)>::empty());
        }
        None
    }
}

/// The table of a full entry sequence agrees with the table of the
/// whole-sequence prefix; stated to seed the lookup loop.
proof fn lemma_env_map_prefix(entries: Seq<(Seq<char>, Seq<char>)>, n: int)
    requires
        n == entries.len(),
    ensures
        env_map(entries) == env_map(entries.subrange(0, n)),
{
    assert(entries.subrange(0, n) =~~= entries);
}

/// Parses `KEY=value` environment text, as a POSIX `env` command prints
/// it, into a snapshot. Trailing whitespace is trimmed, then each
/// newline-separated line is split at its first `=`; a line without `=`
/// fails the whole parse with that line, and no partial snapshot is
/// returned. Duplicate keys are kept in order, and lookups take the last.
pub fn parse_env(env_string: &str) -> (r: Result<EnvSnapshot, EnvParseError>)
    ensures
        match r {
            Ok(snap) => parse_env_spec(env_string@) == Ok::<_, Seq<char>>(snap@),
            Err(e) => parse_env_spec(env_string@) == Err::<Seq<(Seq<char>, Seq<char>)>, _>(
                e.line@,
            ),
        },
{
    let trimmed = trim_end_str(env_string);
    let lines = split_str(trimmed, '\n');
    let ghost all = lines.deep_view();
    let mut entries: Vec<(String, String)> = Vec::new();
    let mut i: usize = 0;
    proof {
        assert(all.subrange(0, all.len() as int) =~~= all);
    }
    while i < lines.len()
        invariant
            i <= lines.len(),
            all == lines.deep_view(),
            all.len() == lines.len(),
            parse_env_spec(env_string@) == parse_lines(all),
            parse_lines(all) == match parse_lines(all.subrange(i as int, all.len() as int)) {
                Ok(rest) => Ok::<_, Seq<char>>(entries.deep_view() + rest),
                Err(e) => Err::<Seq<(Seq<char>, Seq<char>)>, _>(e),
            },
        decreases lines.len() - i,
    {
        let ghost old_dv = entries.deep_view();
        let ghost suffix = all.subrange(i as int, all.len() as int);
        let line = &lines[i];
        let ln = line.as_str().unicode_len();
        let eq_pos = find_char(line.as_str(), '=', 0);
        proof {
            assert(suffix[0] == all[i as int]);
            assert(suffix.drop_first() =~~= all.subrange(i + 1, all.len() as int));
        }
        match eq_pos {
            Some(p) => {
                let key = line.as_str().substring_char(0, p);
                let value = line.as_str().substring_char(p + 1, ln);
                entries.push((key.to_owned(), value.to_owned()));
                proof {
                    lemma_first_index_at(line@, '=', p as int);
                    assert(parse_line(all[i as int]) == Ok::<_, Seq<char>>((key@, value@)));
                    assert(entries.deep_view() =~~= old_dv.push((key@, value@)));
                    if parse_lines(suffix.drop_first()) is Ok {
                        let rest = parse_lines(suffix.drop_first())->Ok_0;
                        assert(old_dv + (seq![(key@, value@)] + rest) =~~= old_dv.push(
                            (key@, value@),
                        ) + rest);
                    }
                }
            },
            None => {
                let offending = line.clone();
                proof {
                    lemma_first_index_of(line@, '=');
                    assert(first_index_of(line@, '=') == -1);
                    assert(parse_lines(all) == Err::<Seq<(Seq<char>, Seq<char>)>, _>(line@));
                    assert(offending@ == line@);
                }
                return Err(EnvParseError { line: offending });
            },
        }
        i += 1;
    }
    proof {
        assert(all.subrange(all.len() as int, all.len() as int) =~~= Seq::<Seq<char>>::empty());
        assert(entries.deep_view() + Seq::<(Seq<char>, Seq<char>)>::empty() =~~= entries.deep_view());
    }
    Ok(EnvSnapshot { entries })
}

} // verus!
