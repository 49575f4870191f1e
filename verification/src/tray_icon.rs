//! Reading the "prevent sleep" setting out of `pmset -g`.
use vstd::prelude::*;

use crate::text::{chars_of, contains_lit, has_infix, is_whitespace, is_ws, lowercase, lowercase_of, string_of, trim, trim_ws};

verus! {

/// Where the first line feed is (the length if there is none).
pub open spec fn first_newline(s: Seq<char>) -> nat
    decreases s.len(),
{
    if s.len() == 0 {
        0
    } else if s[0] == '\n' {
        0
    } else {
        1 + first_newline(s.drop_first())
    }
}

/// The lines of a text as `str::lines` splits it: at each line feed, a
/// carriage return just before it dropped; a final line feed ends the last
/// line rather than starting another.
pub open spec fn lines_of(s: Seq<char>) -> Seq<Seq<char>>
    decreases s.len(),
{
    if s.len() == 0 {
        Seq::empty()
    } else {
        let i = first_newline(s) as int;
        if i < s.len() {
            let raw = s.take(i);
            let line = if raw.len() > 0 && raw.last() == '\r' { raw.drop_last() } else { raw };
            seq![line] + lines_of(s.skip(i + 1))
        } else {
            seq![s]
        }
    }
}

/// Whether the last whitespace-separated word of a line is "1".
pub open spec fn last_word_is_one(line: Seq<char>) -> bool {
    let t = trim_ws(line);
    t.len() >= 1 && t.last() == '1' && (t.len() == 1 || is_whitespace(t[t.len() - 2]))
}

/// The setting as the first line that mentions it (in any case) gives it:
/// on when that line's last word is "1"; off when no line mentions it.
pub open spec fn sleep_flag(lines: Seq<Seq<char>>) -> bool
    decreases lines.len(),
{
    if lines.len() == 0 {
        false
    } else {
        match line_setting(lowercase(lines[0])) {
            Some(on) => on,
            None => sleep_flag(lines.drop_first()),
        }
    }
}

fn last_word_one(line: &[char]) -> (r: bool)
    ensures
        r == last_word_is_one(line@),
{
    let t = trim(line);
    let n = t.len();
    n >= 1 && t[n - 1] == '1' && (n == 1 || is_ws(t[n - 2]))
}

/// What a lowercased line says of the setting: nothing unless it mentions
/// it; then whether its last word is "1".
pub open spec fn line_setting(lower: Seq<char>) -> Option<bool> {
    if has_infix(lower, "sleepdisabled"@) {
        Some(last_word_is_one(lower))
    } else {
        None
    }
}

pub fn setting_in_line(lower: &str) -> (r: Option<bool>)
    ensures
        r == line_setting(lower@),
{
    let l = chars_of(lower);
    if contains_lit(&l, "sleepdisabled") {
        Some(last_word_one(&l))
    } else {
        None
    }
}

/// Whether `pmset -g` output says that sleep is disabled.
pub fn sleep_disabled_from(text: &str) -> (r: bool)
    ensures
        r == sleep_flag(lines_of(text@)),
{
    let c = chars_of(text);
    let ghost s = c@;
    let n = c.len();
    let mut pos: usize = 0;
    assert(s.skip(0) =~= s);
    while pos < n
        invariant
            pos <= n,
            n == s.len(),
            c@ == s,
            s == text@,
            sleep_flag(lines_of(s)) == sleep_flag(lines_of(s.skip(pos as int))),
        decreases n - pos,
    {
        let ghost rest = s.skip(pos as int);
        let mut j = pos;
        while j < n && c[j] != '\n'
            invariant
                pos <= j <= n,
                n == s.len(),
                c@ == s,
                rest == s.skip(pos as int),
                first_newline(rest) == (j - pos) + first_newline(s.skip(j as int)),
            decreases n - j,
        {
            assert(s.skip(j as int).drop_first() =~= s.skip(j + 1));
            j = j + 1;
        }
        proof {
            if j < n {
                assert(s.skip(j as int)[0] == '\n');
            }
            assert(first_newline(rest) == j - pos);
        }
        let mut line: Vec<char> = Vec::new();
        let mut k = pos;
        while k < j
            invariant
                pos <= k <= j <= n,
                n == s.len(),
                c@ == s,
                line@ == s.subrange(pos as int, k as int),
            decreases j - k,
        {
            line.push(c[k]);
            assert(s.subrange(pos as int, k + 1) =~= s.subrange(pos as int, k as int).push(s[k as int]));
            k = k + 1;
        }
        if j < n && line.len() > 0 && line[line.len() - 1] == '\r' {
            line.pop();
        }
        let ghost lv = line@;
        proof {
            assert(rest.take(j - pos) =~= s.subrange(pos as int, j as int));
            if j < n {
                assert(rest.skip(j - pos + 1) =~= s.skip(j + 1));
                assert(lines_of(rest) == seq![lv] + lines_of(s.skip(j + 1)));
            } else {
                assert(rest =~= s.subrange(pos as int, j as int));
                assert(lines_of(rest) == seq![lv]);
            }
        }
        let lower = lowercase_of(string_of(&line).as_str());
        match setting_in_line(lower.as_str()) {
            Some(on) => {
                return on;
            },
            None => {},
        }
        if j < n {
            proof {
                assert((seq![lv] + lines_of(s.skip(j + 1))).drop_first() =~= lines_of(s.skip(j + 1)));
            }
            pos = j + 1;
        } else {
            proof {
                assert(seq![lv].drop_first() =~= Seq::<Seq<char>>::empty());
                assert(s.skip(n as int) =~= Seq::<char>::empty());
            }
            pos = n;
        }
    }
    assert(s.skip(pos as int) =~= Seq::<char>::empty());
    false
}

} // verus!
