//! What the tokenizer produces, stated over character sequences: carriage
//! returns vanish, the text splits into lines, each line loses its `;`
//! comment and surrounding whitespace, and then either declares a label,
//! opens a `ds` data directive whose arguments split on commas outside
//! double quotes, or splits into whitespace- and comma-separated tokens.
//!
//! A running word index accompanies the tokens so a label declaration
//! records the exact output position the resolver will reach there: a
//! `ds` marker advances it by nothing, the payload that follows by the
//! words the payload packs to, and every other token by one.
use vstd::prelude::*;

use crate::pack::strip_quotes;
use crate::text::{find_first, is_space, trim};

verus! {

/// The source with every carriage return removed.
pub open spec fn strip_cr(s: Seq<char>) -> Seq<char>
    decreases s.len(),
{
    if s.len() == 0 {
        s
    } else if s.last() == '\r' {
        strip_cr(s.drop_last())
    } else {
        strip_cr(s.drop_last()).push(s.last())
    }
}

/// The text split at newlines; a trailing newline yields a final empty
/// line, which produces nothing.
pub open spec fn split_lines(s: Seq<char>) -> Seq<Seq<char>>
    decreases s.len(),
{
    let i = find_first(s, '\n');
    if i < 0 || i >= s.len() {
        seq![s]
    } else {
        seq![s.take(i)] + split_lines(s.skip(i + 1))
    }
}

/// The line up to its first `;`, exclusive.
pub open spec fn strip_comment(l: Seq<char>) -> Seq<char> {
    let i = find_first(l, ';');
    if 0 <= i <= l.len() {
        l.take(i)
    } else {
        l
    }
}

/// A line as the tokenizer sees it: comment gone, whitespace trimmed.
pub open spec fn clean_line(l: Seq<char>) -> Seq<char> {
    trim(strip_comment(l))
}

/// A cleaned line ending in `:` declares a label.
pub open spec fn is_label_line(l: Seq<char>) -> bool {
    l.len() > 0 && l.last() == ':'
}

/// The declared name: everything before the trailing colon.
pub open spec fn label_name(l: Seq<char>) -> Seq<char> {
    l.drop_last()
}

/// A cleaned line opening a `ds` data directive.
pub open spec fn is_ds_line(l: Seq<char>) -> bool {
    l == "ds"@ || (l.len() >= 3 && l.take(3) == "ds "@)
}

/// Comma splitting outside double quotes: a quote toggles the in-string
/// flag, a comma outside quotes closes the piece being built, and each
/// piece is trimmed and dropped if empty.
pub open spec fn ds_split(s: Seq<char>, in_quote: bool, current: Seq<char>) -> Seq<Seq<char>>
    decreases s.len(),
{
    if s.len() == 0 {
        if trim(current).len() > 0 {
            seq![trim(current)]
        } else {
            seq![]
        }
    } else if s[0] == '"' {
        ds_split(s.drop_first(), !in_quote, current.push('"'))
    } else if s[0] == ',' && !in_quote {
        if trim(current).len() > 0 {
            seq![trim(current)] + ds_split(s.drop_first(), in_quote, Seq::empty())
        } else {
            ds_split(s.drop_first(), in_quote, Seq::empty())
        }
    } else {
        ds_split(s.drop_first(), in_quote, current.push(s[0]))
    }
}

/// The arguments of a `ds` line: what follows the keyword, comma-split.
pub open spec fn ds_args(l: Seq<char>) -> Seq<Seq<char>> {
    if l == "ds"@ {
        seq![]
    } else {
        ds_split(l.skip(3), false, Seq::empty())
    }
}

/// Splitting on spaces and commas, dropping empty pieces.
pub open spec fn ws_split(s: Seq<char>, current: Seq<char>) -> Seq<Seq<char>>
    decreases s.len(),
{
    if s.len() == 0 {
        if current.len() > 0 {
            seq![current]
        } else {
            seq![]
        }
    } else if s[0] == ' ' || s[0] == ',' {
        if current.len() > 0 {
            seq![current] + ws_split(s.drop_first(), Seq::empty())
        } else {
            ws_split(s.drop_first(), Seq::empty())
        }
    } else {
        ws_split(s.drop_first(), current.push(s[0]))
    }
}

/// The tokens one cleaned line contributes.
pub open spec fn line_tokens(l: Seq<char>) -> Seq<Seq<char>> {
    if l.len() == 0 {
        seq![]
    } else if is_label_line(l) {
        seq![]
    } else if is_ds_line(l) {
        seq!["ds"@] + ds_args(l)
    } else {
        ws_split(l, Seq::empty())
    }
}

/// How many words one token advances the output by. A token standing
/// where a `ds` directive expects its payload packs as a string; a `ds`
/// marker itself advances nothing; every other token becomes one word.
pub open spec fn contribution(t: Seq<char>, pending: bool) -> nat {
    if pending {
        ((strip_quotes(t).len() + 1) / 2) as nat
    } else if t == "ds"@ {
        0
    } else {
        1
    }
}

/// Whether, after this token, the next token is a `ds` payload.
pub open spec fn next_flag(t: Seq<char>, pending: bool) -> bool {
    if pending {
        false
    } else {
        t == "ds"@
    }
}

/// Total word count of a token sequence, threading the payload flag.
pub open spec fn count_flag(toks: Seq<Seq<char>>, pending: bool) -> nat
    decreases toks.len(),
{
    if toks.len() == 0 {
        0
    } else {
        contribution(toks[0], pending) + count_flag(
            toks.drop_first(),
            next_flag(toks[0], pending),
        )
    }
}

/// The payload flag after a whole token sequence.
pub open spec fn flag_after(toks: Seq<Seq<char>>, pending: bool) -> bool
    decreases toks.len(),
{
    if toks.len() == 0 {
        pending
    } else {
        flag_after(toks.drop_first(), next_flag(toks[0], pending))
    }
}

/// Word count and payload flag, one token at a time from the end.
pub proof fn lemma_flag_snoc(toks: Seq<Seq<char>>, t: Seq<char>, pending: bool)
    ensures
        count_flag(toks.push(t), pending) == count_flag(toks, pending) + contribution(
            t,
            flag_after(toks, pending),
        ),
        flag_after(toks.push(t), pending) == next_flag(t, flag_after(toks, pending)),
    decreases toks.len(),
{
    if toks.len() == 0 {
        assert(toks.push(t)[0] == t);
        assert(toks.push(t).drop_first() =~= Seq::<Seq<char>>::empty());
        assert(count_flag(toks.push(t), pending) == contribution(t, pending) + count_flag(
            toks.push(t).drop_first(),
            next_flag(t, pending),
        ));
        assert(count_flag(Seq::<Seq<char>>::empty(), next_flag(t, pending)) == 0);
        assert(flag_after(Seq::<Seq<char>>::empty(), next_flag(t, pending)) == next_flag(
            t,
            pending,
        ));
        assert(count_flag(toks, pending) == 0);
        assert(flag_after(toks, pending) == pending);
    } else {
        assert(toks.push(t)[0] == toks[0]);
        assert(toks.push(t).drop_first() =~= toks.drop_first().push(t));
        lemma_flag_snoc(toks.drop_first(), t, next_flag(toks[0], pending));
        assert(count_flag(toks.push(t), pending) == contribution(toks[0], pending) + count_flag(
            toks.drop_first().push(t),
            next_flag(toks[0], pending),
        ));
        assert(count_flag(toks, pending) == contribution(toks[0], pending) + count_flag(
            toks.drop_first(),
            next_flag(toks[0], pending),
        ));
        assert(flag_after(toks.push(t), pending) == flag_after(
            toks.drop_first().push(t),
            next_flag(toks[0], pending),
        ));
        assert(flag_after(toks, pending) == flag_after(
            toks.drop_first(),
            next_flag(toks[0], pending),
        ));
    }
}

/// The label binding one cleaned line contributes, at word index `idx`.
pub open spec fn line_labels(l: Seq<char>, idx: nat) -> Seq<(Seq<char>, nat)> {
    if is_label_line(l) {
        seq![(label_name(l), idx)]
    } else {
        seq![]
    }
}

/// The tokens and label bindings of a line sequence. The word index
/// starts at `idx` with payload flag `pending`; each label line binds
/// its name to the index reached at its declaration.
pub open spec fn tok_lines(lines: Seq<Seq<char>>, idx: nat, pending: bool) -> (Seq<Seq<char>>, Seq<
    (Seq<char>, nat),
>)
    decreases lines.len(),
{
    if lines.len() == 0 {
        (Seq::empty(), Seq::empty())
    } else {
        let l = clean_line(lines[0]);
        let toks = line_tokens(l);
        let labs = line_labels(l, idx);
        let rest = tok_lines(
            lines.drop_first(),
            idx + count_flag(toks, pending),
            flag_after(toks, pending),
        );
        (toks + rest.0, labs + rest.1)
    }
}

/// The tokens of a whole source text.
pub open spec fn spec_tokens(input: Seq<char>) -> Seq<Seq<char>> {
    tok_lines(split_lines(strip_cr(input)), 0, false).0
}

/// The label table of a whole source text.
pub open spec fn spec_labels(input: Seq<char>) -> Seq<(Seq<char>, nat)> {
    tok_lines(split_lines(strip_cr(input)), 0, false).1
}

} // verus!
