//! JSON display: a lexer that splits text into classed tokens, and
//! pretty-printing of summaries.

use vstd::prelude::*;
use crate::codec::{is_alphabetic, json_pretty, pretty_json, unicode_alphabetic};
use crate::text::{chars_of, string_of, sub_vec, str_eq};

verus! {

/// A highlighted token: its CSS class (empty for plain text) and its text.
pub struct HiNode {
    pub cls: &'static str,
    pub text: String,
}

/// End of a string token whose body starts at `j`: just after the closing
/// quote; a backslash takes the next character with it.
pub open spec fn str_end(s: Seq<char>, j: int) -> int
    decreases s.len() - j,
{
    if j >= s.len() {
        s.len() as int
    } else if s[j] == '\\' {
        if j + 1 < s.len() {
            str_end(s, j + 2)
        } else {
            s.len() as int
        }
    } else if s[j] == '"' {
        j + 1
    } else {
        str_end(s, j + 1)
    }
}

/// Characters that continue a number.
pub open spec fn is_num_char(c: char) -> bool {
    ('0' <= c <= '9') || c == '.' || c == '-' || c == '+' || c == 'e' || c == 'E'
}

/// End of a number token continuing at `j`.
pub open spec fn num_end(s: Seq<char>, j: int) -> int
    decreases s.len() - j,
{
    if j >= s.len() {
        s.len() as int
    } else if is_num_char(s[j]) {
        num_end(s, j + 1)
    } else {
        j
    }
}

/// End of a word continuing at `j` (alphabetic characters).
pub open spec fn word_end(s: Seq<char>, j: int) -> int
    decreases s.len() - j,
{
    if j >= s.len() {
        s.len() as int
    } else if unicode_alphabetic(s[j]) {
        word_end(s, j + 1)
    } else {
        j
    }
}

/// Structural punctuation.
pub open spec fn is_punct(c: char) -> bool {
    c == '{' || c == '}' || c == '[' || c == ']' || c == ':' || c == ','
}

/// Tokens of `s` from position `i`, before keys are told apart from values.
/// A word starting with `t`, `f` or `n` also consumes the character that
/// ends it, which is not part of any token.
pub open spec fn lex(s: Seq<char>, i: int) -> Seq<(Seq<char>, Seq<char>)>
    decreases s.len() - i,
{
    if i < 0 || i >= s.len() {
        Seq::empty()
    } else {
        let c = s[i];
        if c == '"' {
            let e = str_end(s, i + 1);
            proof {
                lemma_str_end_bounds(s, i + 1);
            }
            seq![("hl-s"@, s.subrange(i, e))] + lex(s, e)
        } else if ('0' <= c <= '9') || c == '-' {
            let e = num_end(s, i + 1);
            proof {
                lemma_num_end_bounds(s, i + 1);
            }
            seq![("hl-n"@, s.subrange(i, e))] + lex(s, e)
        } else if c == 't' || c == 'f' || c == 'n' {
            let w = word_end(s, i + 1);
            proof {
                lemma_word_end_bounds(s, i + 1);
            }
            let word = s.subrange(i, w);
            let cls = if word == "true"@ || word == "false"@ || word == "null"@ {
                "hl-b"@
            } else {
                Seq::empty()
            };
            let next = if w < s.len() {
                w + 1
            } else {
                w
            };
            seq![(cls, word)] + lex(s, next)
        } else if is_punct(c) {
            seq![("hl-p"@, seq![c])] + lex(s, i + 1)
        } else {
            seq![(Seq::<char>::empty(), seq![c])] + lex(s, i + 1)
        }
    }
}

/// First token at or after `j` with a non-empty class, or the count.
pub open spec fn next_classed(t: Seq<(Seq<char>, Seq<char>)>, j: int) -> int
    decreases t.len() - j,
{
    if j >= t.len() {
        t.len() as int
    } else if t[j].0.len() > 0 {
        j
    } else {
        next_classed(t, j + 1)
    }
}

/// A string token is a key when the next classed token is a `:`.
pub open spec fn is_key(t: Seq<(Seq<char>, Seq<char>)>, i: int) -> bool {
    t[i].0 == "hl-s"@ && next_classed(t, i + 1) < t.len() && t[next_classed(t, i + 1)].1 == ":"@
}

/// Tokens with keys classed `hl-k`.
pub open spec fn mark_keys(t: Seq<(Seq<char>, Seq<char>)>) -> Seq<(Seq<char>, Seq<char>)> {
    Seq::new(t.len(), |i: int| if is_key(t, i) { ("hl-k"@, t[i].1) } else { t[i] })
}

/// The highlighted tokens of a JSON text.
pub open spec fn highlight_spec(s: Seq<char>) -> Seq<(Seq<char>, Seq<char>)> {
    mark_keys(lex(s, 0))
}

/// Views of tokens.
pub open spec fn node_views(v: Seq<HiNode>) -> Seq<(Seq<char>, Seq<char>)> {
    v.map_values(|n: HiNode| (n.cls@, n.text@))
}

pub proof fn lemma_str_end_bounds(s: Seq<char>, j: int)
    requires
        0 <= j <= s.len(),
    ensures
        j <= str_end(s, j) <= s.len(),
    decreases s.len() - j,
{
    if j < s.len() {
        if s[j] == '\\' {
            if j + 1 < s.len() {
                lemma_str_end_bounds(s, j + 2);
            }
        } else if s[j] != '"' {
            lemma_str_end_bounds(s, j + 1);
        }
    }
}

pub proof fn lemma_num_end_bounds(s: Seq<char>, j: int)
    requires
        0 <= j <= s.len(),
    ensures
        j <= num_end(s, j) <= s.len(),
    decreases s.len() - j,
{
    if j < s.len() && is_num_char(s[j]) {
        lemma_num_end_bounds(s, j + 1);
    }
}

pub proof fn lemma_word_end_bounds(s: Seq<char>, j: int)
    requires
        0 <= j <= s.len(),
    ensures
        j <= word_end(s, j) <= s.len(),
    decreases s.len() - j,
{
    if j < s.len() && unicode_alphabetic(s[j]) {
        lemma_word_end_bounds(s, j + 1);
    }
}

fn scan_str(s: &Vec<char>, start: usize) -> (r: usize)
    requires
        start <= s.len(),
    ensures
        r as int == str_end(s@, start as int),
        start <= r <= s.len(),
{
    let mut j = start;
    while j < s.len()
        invariant
            start <= j <= s.len(),
            str_end(s@, start as int) == str_end(s@, j as int),
        decreases s.len() - j,
    {
        if s[j] == '\\' {
            if j + 1 < s.len() {
                j = j + 2;
            } else {
                return s.len();
            }
        } else if s[j] == '"' {
            return j + 1;
        } else {
            j = j + 1;
        }
    }
    j
}

fn scan_num(s: &Vec<char>, start: usize) -> (r: usize)
    requires
        start <= s.len(),
    ensures
        r as int == num_end(s@, start as int),
        start <= r <= s.len(),
{
    let mut j = start;
    while j < s.len()
        invariant
            start <= j <= s.len(),
            num_end(s@, start as int) == num_end(s@, j as int),
        decreases s.len() - j,
    {
        let c = s[j];
        if ('0' <= c && c <= '9') || c == '.' || c == '-' || c == '+' || c == 'e' || c == 'E' {
            j = j + 1;
        } else {
            return j;
        }
    }
    j
}

fn scan_word(s: &Vec<char>, start: usize) -> (r: usize)
    requires
        start <= s.len(),
    ensures
        r as int == word_end(s@, start as int),
        start <= r <= s.len(),
{
    let mut j = start;
    while j < s.len()
        invariant
            start <= j <= s.len(),
            word_end(s@, start as int) == word_end(s@, j as int),
        decreases s.len() - j,
    {
        if is_alphabetic(s[j]) {
            j = j + 1;
        } else {
            return j;
        }
    }
    j
}

fn is_one_of_words(w: &str) -> (r: bool)
    ensures
        r == (w@ == "true"@ || w@ == "false"@ || w@ == "null"@),
{
    str_eq(w, "true") || str_eq(w, "false") || str_eq(w, "null")
}

/// Split JSON text into highlighted tokens: strings (`hl-s`, or `hl-k` when
/// a `:` follows), numbers (`hl-n`), `true`/`false`/`null` (`hl-b`),
/// punctuation (`hl-p`), anything else unclassed.
pub fn tokenize_json(text: &str) -> (r: Vec<HiNode>)
    ensures
        node_views(r@) == highlight_spec(text@),
{
    let s = chars_of(text);
    let mut out: Vec<HiNode> = Vec::new();
    let mut i: usize = 0;
    while i < s.len()
        invariant
            s@ == text@,
            i <= s.len(),
            lex(s@, 0) == node_views(out@) + lex(s@, i as int),
        decreases s.len() - i,
    {
        let ghost before = out@;
        let c = s[i];
        let ghost rest = lex(s@, i as int);
        if c == '"' {
            let e = scan_str(&s, i + 1);
            let t = sub_vec(&s, i, e);
            out.push(HiNode { cls: "hl-s", text: string_of(&t) });
            proof {
                reveal_strlit("hl-s");
                assert(rest == seq![("hl-s"@, s@.subrange(i as int, e as int))] + lex(s@, e as int));
                assert(node_views(out@) =~= node_views(before).push(("hl-s"@, s@.subrange(i as int, e as int))));
                assert(node_views(before) + rest =~= node_views(out@) + lex(s@, e as int));
            }
            i = e;
        } else if ('0' <= c && c <= '9') || c == '-' {
            let e = scan_num(&s, i + 1);
            let t = sub_vec(&s, i, e);
            out.push(HiNode { cls: "hl-n", text: string_of(&t) });
            proof {
                assert(rest == seq![("hl-n"@, s@.subrange(i as int, e as int))] + lex(s@, e as int));
                assert(node_views(out@) =~= node_views(before).push(("hl-n"@, s@.subrange(i as int, e as int))));
                assert(node_views(before) + rest =~= node_views(out@) + lex(s@, e as int));
            }
            i = e;
        } else if c == 't' || c == 'f' || c == 'n' {
            let w = scan_word(&s, i + 1);
            let t = sub_vec(&s, i, w);
            let word = string_of(&t);
            let known = is_one_of_words(word.as_str());
            let cls: &'static str = if known {
                "hl-b"
            } else {
                proof {
                    reveal_strlit("");
                }
                ""
            };
            let next = if w < s.len() {
                w + 1
            } else {
                w
            };
            out.push(HiNode { cls, text: word });
            proof {
                let wv = s@.subrange(i as int, w as int);
                let cv: Seq<char> = if wv == "true"@ || wv == "false"@ || wv == "null"@ {
                    "hl-b"@
                } else {
                    Seq::empty()
                };
                assert(cls@ == cv);
                assert(rest == seq![(cv, wv)] + lex(s@, next as int));
                assert(node_views(out@) =~= node_views(before).push((cv, wv)));
                assert(node_views(before) + rest =~= node_views(out@) + lex(s@, next as int));
            }
            i = next;
        } else if c == '{' || c == '}' || c == '[' || c == ']' || c == ':' || c == ',' {
            let t = sub_vec(&s, i, i + 1);
            out.push(HiNode { cls: "hl-p", text: string_of(&t) });
            proof {
                assert(t@ =~= seq![c]);
                assert(rest == seq![("hl-p"@, seq![c])] + lex(s@, i + 1));
                assert(node_views(out@) =~= node_views(before).push(("hl-p"@, seq![c])));
                assert(node_views(before) + rest =~= node_views(out@) + lex(s@, i + 1));
            }
            i = i + 1;
        } else {
            let t = sub_vec(&s, i, i + 1);
            let empty: &'static str = "";
            proof {
                reveal_strlit("");
                assert(empty@ =~= Seq::<char>::empty());
            }
            out.push(HiNode { cls: empty, text: string_of(&t) });
            proof {
                assert(t@ =~= seq![c]);
                assert(rest == seq![(Seq::<char>::empty(), seq![c])] + lex(s@, i + 1));
                assert(node_views(out@) =~= node_views(before).push((Seq::<char>::empty(), seq![c])));
                assert(node_views(before) + rest =~= node_views(out@) + lex(s@, i + 1));
            }
            i = i + 1;
        }
    }
    proof {
        assert(lex(s@, i as int) =~= Seq::<(Seq<char>, Seq<char>)>::empty());
        assert(node_views(out@) =~= lex(s@, 0));
    }
    let ghost toks = node_views(out@);
    let n = out.len();
    let mut i: usize = 0;
    while i < n
        invariant
            n == out@.len() == toks.len(),
            i <= n,
            forall|k: int| 0 <= k < i ==> (#[trigger] node_views(out@)[k]) == mark_keys(toks)[k],
            forall|k: int| i <= k < n ==> (#[trigger] node_views(out@)[k]) == toks[k],
        decreases n - i,
    {
        let is_str = str_eq(out[i].cls, "hl-s");
        if is_str {
            let mut j = i + 1;
            while j < n && out[j].cls.unicode_len() == 0
                invariant
                    n == out@.len() == toks.len(),
                    i < j <= n,
                    forall|k: int| i < k < n ==> (#[trigger] node_views(out@)[k]) == toks[k],
                    next_classed(toks, i + 1) == next_classed(toks, j as int),
                decreases n - j,
            {
                assert(node_views(out@)[j as int] == toks[j as int]);
                j = j + 1;
            }
            if j < n {
                assert(node_views(out@)[j as int] == toks[j as int]);
            }
            if j < n && str_eq(out[j].text.as_str(), ":") {
                let t = out[i].text.clone();
                let ghost prev = out@;
                out.set(i, HiNode { cls: "hl-k", text: t });
                proof {
                    assert forall|k: int| 0 <= k < n && k != i implies #[trigger] node_views(out@)[k]
                        == node_views(prev)[k] by {
                        assert(out@[k] == prev[k]);
                    }
                    assert(node_views(prev)[i as int] == toks[i as int]);
                }
            } else {
                proof {
                    assert(node_views(out@)[i as int] == toks[i as int]);
                }
            }
        } else {
            proof {
                assert(node_views(out@)[i as int] == toks[i as int]);
            }
        }
        i = i + 1;
    }
    assert(node_views(out@) =~= mark_keys(toks));
    out
}

/// A history summary for display: pretty-printed when it is JSON, as it
/// is otherwise.
pub fn prettify_summary(raw: &str) -> (r: String)
    ensures
        r@ == match json_pretty(raw@) {
            Some(p) => p,
            None => raw@,
        },
{
    match pretty_json(raw) {
        Some(p) => p,
        None => raw.to_owned(),
    }
}

/// The literals `true`, `false` and `null` are exactly the tokens classed
/// `hl-b`: such a token is always classed so, and nothing else is.
pub proof fn law_literals_highlighted(s: Seq<char>)
    ensures
        forall|i: int|
            0 <= i < highlight_spec(s).len() ==> (is_literal((#[trigger] highlight_spec(s)[i]).1)
                <==> highlight_spec(s)[i].0 == "hl-b"@),
{
    lemma_lex_literals(s, 0);
    let t = lex(s, 0);
    reveal_strlit("hl-b");
    reveal_strlit("hl-s");
    reveal_strlit("hl-k");
    assert("hl-b"@[3] != "hl-s"@[3]);
    assert("hl-b"@[3] != "hl-k"@[3]);
    assert forall|i: int|
        0 <= i < highlight_spec(s).len() implies (is_literal((#[trigger] highlight_spec(s)[i]).1)
            <==> highlight_spec(s)[i].0 == "hl-b"@) by {
        assert(highlight_spec(s)[i] == if is_key(t, i) { ("hl-k"@, t[i].1) } else { t[i] });
        if is_key(t, i) {
            assert(t[i].0 == "hl-s"@);
        }
    }
}

/// One of the texts `true`, `false`, `null`.
pub open spec fn is_literal(w: Seq<char>) -> bool {
    w == "true"@ || w == "false"@ || w == "null"@
}

proof fn lemma_lex_literals(s: Seq<char>, i: int)
    ensures
        forall|k: int| 0 <= k < lex(s, i).len() ==> (is_literal((#[trigger] lex(s, i)[k]).1)
            <==> lex(s, i)[k].0 == "hl-b"@),
    decreases s.len() - i,
{
    reveal_strlit("true");
    reveal_strlit("false");
    reveal_strlit("null");
    reveal_strlit("hl-b");
    reveal_strlit("hl-s");
    reveal_strlit("hl-n");
    reveal_strlit("hl-p");
    assert("hl-b"@[3] != "hl-s"@[3]);
    assert("hl-b"@[3] != "hl-n"@[3]);
    assert("hl-b"@[3] != "hl-p"@[3]);
    if 0 <= i < s.len() {
        let c = s[i];
        let t = lex(s, i);
        if c == '"' {
            let e = str_end(s, i + 1);
            lemma_str_end_bounds(s, i + 1);
            lemma_lex_literals(s, e);
            let tok = ("hl-s"@, s.subrange(i, e));
            assert(t == seq![tok] + lex(s, e));
            assert(tok.1[0] == '"');
            assert(!is_literal(tok.1)) by {
                if is_literal(tok.1) {
                    assert(tok.1[0] == 't' || tok.1[0] == 'f' || tok.1[0] == 'n');
                }
            }
            assert forall|k: int| 0 <= k < t.len() implies (is_literal((#[trigger] t[k]).1) <==> t[k].0 == "hl-b"@) by {
                if k > 0 {
                    assert(t[k] == lex(s, e)[k - 1]);
                }
            }
        } else if ('0' <= c <= '9') || c == '-' {
            let e = num_end(s, i + 1);
            lemma_num_end_bounds(s, i + 1);
            lemma_lex_literals(s, e);
            let tok = ("hl-n"@, s.subrange(i, e));
            assert(t == seq![tok] + lex(s, e));
            assert(tok.1[0] == c);
            assert(!is_literal(tok.1)) by {
                if is_literal(tok.1) {
                    assert(tok.1[0] == 't' || tok.1[0] == 'f' || tok.1[0] == 'n');
                }
            }
            assert forall|k: int| 0 <= k < t.len() implies (is_literal((#[trigger] t[k]).1) <==> t[k].0 == "hl-b"@) by {
                if k > 0 {
                    assert(t[k] == lex(s, e)[k - 1]);
                }
            }
        } else if c == 't' || c == 'f' || c == 'n' {
            let w = word_end(s, i + 1);
            lemma_word_end_bounds(s, i + 1);
            let next = if w < s.len() { w + 1 } else { w };
            lemma_lex_literals(s, next);
            assert forall|k: int| 0 <= k < t.len() implies (is_literal((#[trigger] t[k]).1) <==> t[k].0 == "hl-b"@) by {
                if k > 0 {
                    assert(t[k] == lex(s, next)[k - 1]);
                } else {
                    assert(Seq::<char>::empty().len() == 0);
                }
            }
        } else {
            let cls = if is_punct(c) { "hl-p"@ } else { Seq::<char>::empty() };
            lemma_lex_literals(s, i + 1);
            assert(t == seq![(cls, seq![c])] + lex(s, i + 1));
            assert("true"@.len() == 4 && "false"@.len() == 5 && "null"@.len() == 4);
            assert(seq![c].len() == 1);
            assert(!is_literal(seq![c]));
            assert(cls != "hl-b"@) by {
                if !is_punct(c) {
                    assert(cls.len() == 0);
                }
            }
            assert forall|k: int| 0 <= k < t.len() implies (is_literal((#[trigger] t[k]).1) <==> t[k].0 == "hl-b"@) by {
                if k > 0 {
                    assert(t[k] == lex(s, i + 1)[k - 1]);
                }
            }
        }
    }
}

} // verus!
