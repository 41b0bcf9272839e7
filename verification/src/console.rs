//! Classifying a console message into its displayed parts.
//!
//! A stored console message is shown as a prompt, an optional bracketed
//! level tag, and the remaining text.  The message may itself begin with a
//! `"$ "` prompt (the log writer's messages do); a level tag is a leading
//! `[...]` segment that ends the message or is followed by a space.

use vstd::prelude::*;

verus! {

/// ASCII whitespace as trimmed from message edges.
pub open spec fn is_ws(c: char) -> bool {
    c == ' ' || c == '\t' || c == '\n' || c == '\r'
}

/// `s` without its leading whitespace.
pub open spec fn trim_ws(s: Seq<char>) -> Seq<char>
    decreases s.len(),
{
    if s.len() > 0 && is_ws(s[0]) {
        trim_ws(s.drop_first())
    } else {
        s
    }
}

/// Whether `s` begins with the `"$ "` prompt.
pub open spec fn has_prompt(s: Seq<char>) -> bool {
    s.len() >= 2 && s[0] == '$' && s[1] == ' '
}

/// The index of the first `]` in `s`, if any.
pub open spec fn first_close(s: Seq<char>) -> Option<int>
    decreases s.len(),
{
    if s.len() == 0 {
        None
    } else if s[0] == ']' {
        Some(0)
    } else {
        match first_close(s.drop_first()) {
            None => None,
            Some(j) => Some(j + 1),
        }
    }
}

/// The level tag and remaining text of `d`, when `d` carries a level tag:
/// it starts with `[`, holds a `]`, and the first `]` ends the text or is
/// followed by a space.  The remaining text loses its leading whitespace.
pub open spec fn level_split(d: Seq<char>) -> Option<(Seq<char>, Seq<char>)> {
    if d.len() > 0 && d[0] == '[' {
        match first_close(d) {
            Some(e) => if e + 1 == d.len() || d[e + 1] == ' ' {
                Some((d.take(e + 1), trim_ws(d.skip(e + 1))))
            } else {
                None
            },
            None => None,
        }
    } else {
        None
    }
}

/// How a stored message is displayed: whether it carried its own prompt,
/// its level tag if it has one, and the remaining text.
pub open spec fn console_parts(msg: Seq<char>) -> (bool, Option<Seq<char>>, Seq<char>) {
    let t = trim_ws(msg);
    let d = if has_prompt(t) {
        t.skip(2)
    } else {
        t
    };
    match level_split(d) {
        Some(p) => (has_prompt(t), Some(p.0), p.1),
        None => (has_prompt(t), None, d),
    }
}

/// One console message, classified for display.
pub struct ConsoleLine {
    /// Whether the message carried its own `"$ "` prompt.
    pub had_prompt: bool,
    /// The `[...]` level tag, when the message carries one.
    pub level: Option<String>,
    /// The remaining text.
    pub body: String,
}

fn is_ws_at(s: &str, i: usize) -> (r: bool)
    requires
        i < s@.len(),
    ensures
        r == is_ws(s@[i as int]),
{
    let c = s.get_char(i);
    c == ' ' || c == '\t' || c == '\n' || c == '\r'
}

fn trim_start_of<'a>(s: &'a str) -> (r: &'a str)
    ensures
        r@ == trim_ws(s@),
{
    let n = s.unicode_len();
    let mut i: usize = 0;
    proof {
        assert(s@.skip(0) =~= s@);
    }
    while i < n && is_ws_at(s, i)
        invariant
            i <= n,
            n == s@.len(),
            trim_ws(s@) == trim_ws(s@.skip(i as int)),
        decreases n - i,
    {
        i = i + 1;
        proof {
            let pre = s@.skip(i - 1);
            assert(pre[0] == s@[i - 1]);
            assert(pre.drop_first() =~= s@.skip(i as int));
        }
    }
    s.substring_char(i, n)
}

proof fn lemma_first_close_at(d: Seq<char>, e: int)
    requires
        0 <= e < d.len(),
        d[e] == ']',
        forall|k: int| 0 <= k < e ==> d[k] != ']',
    ensures
        first_close(d) == Some(e),
    decreases e,
{
    if e > 0 {
        let rest = d.drop_first();
        assert(forall|k: int| 0 <= k < rest.len() ==> #[trigger] rest[k] == d[k + 1]);
        lemma_first_close_at(rest, e - 1);
    }
}

proof fn lemma_first_close_none(d: Seq<char>)
    requires
        forall|k: int| 0 <= k < d.len() ==> d[k] != ']',
    ensures
        first_close(d) is None,
    decreases d.len(),
{
    if d.len() > 0 {
        let rest = d.drop_first();
        assert(forall|k: int| 0 <= k < rest.len() ==> #[trigger] rest[k] == d[k + 1]);
        lemma_first_close_none(rest);
    }
}

/// Classifies one stored console message for display.
pub fn split_console_line(msg: &str) -> (r: ConsoleLine)
    ensures
        ({
            let p = console_parts(msg@);
            &&& r.had_prompt == p.0
            &&& (match p.1 {
                Some(lv) => r.level matches Some(l) && l@ == lv,
                None => r.level is None,
            })
            &&& r.body@ == p.2
        }),
{
    let t = trim_start_of(msg);
    let tn = t.unicode_len();
    let had_prompt = tn >= 2 && t.get_char(0) == '$' && t.get_char(1) == ' ';
    let d: &str = if had_prompt {
        t.substring_char(2, tn)
    } else {
        t
    };
    let dn = d.unicode_len();
    if dn == 0 || d.get_char(0) != '[' {
        proof {
            if dn > 0 {
                assert(level_split(d@) is None);
            }
        }
        return ConsoleLine { had_prompt, level: None, body: d.to_owned() };
    }
    // find the first `]`
    let mut e: usize = 0;
    let mut found = false;
    while e < dn && !found
        invariant
            e <= dn,
            dn == d@.len(),
            found ==> e < dn && d@[e as int] == ']' && forall|k: int| 0 <= k < e ==> d@[k] != ']',
            !found ==> forall|k: int| 0 <= k < e ==> d@[k] != ']',
        decreases dn - e + (if found {
            0int
        } else {
            1int
        }),
    {
        if d.get_char(e) == ']' {
            found = true;
        } else {
            e = e + 1;
        }
    }
    if !found {
        proof {
            lemma_first_close_none(d@);
        }
        return ConsoleLine { had_prompt, level: None, body: d.to_owned() };
    }
    proof {
        lemma_first_close_at(d@, e as int);
    }
    if e + 1 == dn || d.get_char(e + 1) == ' ' {
        let level = d.substring_char(0, e + 1);
        let rest = trim_start_of(d.substring_char(e + 1, dn));
        proof {
            assert(d@.subrange(0, e + 1) =~= d@.take(e + 1));
            assert(d@.subrange(e + 1, dn as int) =~= d@.skip(e + 1));
        }
        ConsoleLine { had_prompt, level: Some(level.to_owned()), body: rest.to_owned() }
    } else {
        ConsoleLine { had_prompt, level: None, body: d.to_owned() }
    }
}

} // verus!
