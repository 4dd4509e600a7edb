//! The assembly pipeline: `tokenize` turns source text into tokens and a
//! label table, `parse_tokens` resolves the tokens into 16-bit words,
//! and `assemble` runs both. Every function is specified against the
//! line-level tokenizer model in `scan` and the resolver model in
//! `encode`.
use vstd::prelude::*;
use vstd::string::*;

use crate::encode::{parse_tokens, spec_parse, UnresolvedToken};
use crate::labels::LabelTable;
use crate::pack::strip_quotes;
use crate::scan::{
    clean_line, contribution, count_flag, ds_args, ds_split, flag_after, is_ds_line,
    is_label_line, label_name, lemma_flag_snoc, line_labels, line_tokens, next_flag, spec_labels,
    spec_tokens, split_lines, strip_comment, strip_cr, tok_lines, ws_split,
};
use crate::text::{
    chars_eq_str, chars_of, copy_range, find_first, lemma_find_first_is, lemma_trim_len,
    string_from_chars, trim_vec,
};

verus! {

/// The input with every carriage return removed.
fn filter_cr(v: &Vec<char>) -> (r: Vec<char>)
    ensures
        r@ == strip_cr(v@),
{
    let n: usize = v.len();
    let mut r: Vec<char> = Vec::new();
    let mut i: usize = 0;
    while i < n
        invariant
            i <= n,
            n == v@.len(),
            r@ == strip_cr(v@.take(i as int)),
        decreases n - i,
    {
        let c: char = v[i];
        proof {
            let t = v@.take(i as int + 1);
            assert(t.drop_last() =~= v@.take(i as int));
            assert(t.last() == v@[i as int]);
        }
        if c != '\r' {
            r.push(c);
        }
        i = i + 1;
    }
    proof {
        assert(v@.take(n as int) =~= v@);
    }
    r
}

/// A line as the tokenizer sees it: comment stripped, whitespace
/// trimmed.
fn clean_of_line(line: &Vec<char>) -> (r: Vec<char>)
    ensures
        r@ == clean_line(line@),
        r@.len() <= line@.len(),
{
    let n: usize = line.len();
    let mut k: usize = 0;
    while k < n && line[k] != ';'
        invariant
            k <= n,
            n == line@.len(),
            forall|i: int| 0 <= i < k ==> line@[i] != ';',
        decreases n - k,
    {
        k = k + 1;
    }
    proof {
        lemma_find_first_is(line@, ';', k as int);
    }
    let head: Vec<char> = copy_range(line, 0, k);
    proof {
        assert(head@ =~= line@.take(k as int));
        assert(head@ == strip_comment(line@));
        lemma_trim_len(head@);
    }
    trim_vec(&head)
}

/// Advances the word index and payload flag over one emitted token.
fn token_step(t: &Vec<char>, idx: usize, pending: bool) -> (r: (usize, bool))
    requires
        t@.len() >= 1,
        idx + t@.len() <= usize::MAX,
    ensures
        r.0 as nat == idx as nat + contribution(t@, pending),
        r.1 == next_flag(t@, pending),
        idx <= r.0 <= idx + t@.len(),
{
    if pending {
        let n: usize = t.len();
        let sl: usize = if n >= 2 && t[0] == '"' && t[n - 1] == '"' {
            n - 2
        } else {
            n
        };
        proof {
            assert(strip_quotes(t@).len() == sl);
        }
        let c: usize = crate::pack::pack_len_of(sl);
        proof {
            assert(c <= t@.len());
        }
        (idx + c, false)
    } else if chars_eq_str(t, "ds") {
        (idx, true)
    } else {
        (idx + 1, false)
    }
}

/// Appends the characters of `t` to the token list as one token.
fn push_token(tokens: &mut Vec<String>, t: &Vec<char>)
    ensures
        final(tokens).deep_view() == old(tokens).deep_view().push(t@),
{
    let st: String = string_from_chars(t);
    let ghost before = tokens.deep_view();
    tokens.push(st);
    proof {
        assert forall|k: int| 0 <= k < before.len() implies tokens.deep_view()[k] == before[k]
        by {
            assert(tokens@[k] == old(tokens)@[k]);
        }
        assert(tokens.deep_view()[before.len() as int] == t@);
        assert(tokens.deep_view() =~= before.push(t@));
    }
}

/// Emits the comma-separated arguments of a `ds` line, keeping the word
/// index in step with the words each argument will pack to.
fn ds_args_loop(s: &Vec<char>, tokens: &mut Vec<String>, idx: usize, pending: bool) -> (r: (
    usize,
    bool,
))
    requires
        idx + s@.len() <= usize::MAX,
    ensures
        final(tokens).deep_view() == old(tokens).deep_view() + ds_split(
            s@,
            false,
            Seq::empty(),
        ),
        r.0 as nat == idx as nat + count_flag(ds_split(s@, false, Seq::empty()), pending),
        r.1 == flag_after(ds_split(s@, false, Seq::empty()), pending),
        idx <= r.0 <= idx + s@.len(),
{
    let ghost tokens0 = tokens.deep_view();
    let ghost target = ds_split(s@, false, Seq::<char>::empty());
    let n: usize = s.len();
    let mut cur: Vec<char> = Vec::new();
    let mut in_q: bool = false;
    let mut j: usize = 0;
    let mut idx_now: usize = idx;
    let mut p_now: bool = pending;
    let ghost mut emitted: Seq<Seq<char>> = Seq::empty();
    proof {
        assert(s@.skip(0) =~= s@);
        assert(tokens.deep_view() =~= tokens0 + emitted);
    }
    while j < n
        invariant
            j <= n,
            n == s@.len(),
            cur@.len() <= j,
            target == ds_split(s@, false, Seq::<char>::empty()),
            target == emitted + ds_split(s@.skip(j as int), in_q, cur@),
            tokens.deep_view() == tokens0 + emitted,
            idx_now as nat == idx as nat + count_flag(emitted, pending),
            p_now == flag_after(emitted, pending),
            idx as int <= idx_now + cur@.len() <= idx + j,
            idx + s@.len() <= usize::MAX,
        decreases n - j,
    {
        let c: char = s[j];
        let ghost rest = s@.skip(j as int);
        proof {
            assert(rest[0] == s@[j as int]);
            assert(rest.drop_first() =~= s@.skip(j as int + 1));
        }
        if c == '"' {
            in_q = !in_q;
            cur.push('"');
        } else if c == ',' && !in_q {
            let t: Vec<char> = trim_vec(&cur);
            proof {
                lemma_trim_len(cur@);
            }
            if t.len() > 0 {
                push_token(tokens, &t);
                proof {
                    lemma_flag_snoc(emitted, t@, pending);
                }
                let step: (usize, bool) = token_step(&t, idx_now, p_now);
                idx_now = step.0;
                p_now = step.1;
                proof {
                    emitted = emitted.push(t@);
                    assert(tokens.deep_view() =~= tokens0 + emitted);
                    assert((emitted + ds_split(s@.skip(j as int + 1), in_q, Seq::empty()))
                        =~= target);
                }
            } else {
                proof {
                    assert(emitted + ds_split(s@.skip(j as int + 1), in_q, Seq::<char>::empty())
                        =~= target);
                }
            }
            cur = Vec::new();
        } else {
            cur.push(c);
        }
        j = j + 1;
    }
    proof {
        assert(s@.skip(n as int) =~= Seq::<char>::empty());
    }
    let t: Vec<char> = trim_vec(&cur);
    proof {
        lemma_trim_len(cur@);
    }
    if t.len() > 0 {
        push_token(tokens, &t);
        proof {
            lemma_flag_snoc(emitted, t@, pending);
        }
        let step: (usize, bool) = token_step(&t, idx_now, p_now);
        idx_now = step.0;
        p_now = step.1;
        proof {
            emitted = emitted.push(t@);
            assert(tokens.deep_view() =~= tokens0 + emitted);
            assert(emitted =~= target);
        }
    } else {
        proof {
            assert(emitted =~= target);
        }
    }
    (idx_now, p_now)
}

/// Emits the space- and comma-separated tokens of an ordinary line.
fn ws_loop(s: &Vec<char>, tokens: &mut Vec<String>, idx: usize, pending: bool) -> (r: (
    usize,
    bool,
))
    requires
        idx + s@.len() <= usize::MAX,
    ensures
        final(tokens).deep_view() == old(tokens).deep_view() + ws_split(s@, Seq::empty()),
        r.0 as nat == idx as nat + count_flag(ws_split(s@, Seq::empty()), pending),
        r.1 == flag_after(ws_split(s@, Seq::empty()), pending),
        idx <= r.0 <= idx + s@.len(),
{
    let ghost tokens0 = tokens.deep_view();
    let ghost target = ws_split(s@, Seq::<char>::empty());
    let n: usize = s.len();
    let mut cur: Vec<char> = Vec::new();
    let mut j: usize = 0;
    let mut idx_now: usize = idx;
    let mut p_now: bool = pending;
    let ghost mut emitted: Seq<Seq<char>> = Seq::empty();
    proof {
        assert(s@.skip(0) =~= s@);
        assert(tokens.deep_view() =~= tokens0 + emitted);
    }
    while j < n
        invariant
            j <= n,
            n == s@.len(),
            cur@.len() <= j,
            target == ws_split(s@, Seq::<char>::empty()),
            target == emitted + ws_split(s@.skip(j as int), cur@),
            tokens.deep_view() == tokens0 + emitted,
            idx_now as nat == idx as nat + count_flag(emitted, pending),
            p_now == flag_after(emitted, pending),
            idx as int <= idx_now + cur@.len() <= idx + j,
            idx + s@.len() <= usize::MAX,
        decreases n - j,
    {
        let c: char = s[j];
        let ghost rest = s@.skip(j as int);
        proof {
            assert(rest[0] == s@[j as int]);
            assert(rest.drop_first() =~= s@.skip(j as int + 1));
        }
        if c == ' ' || c == ',' {
            if cur.len() > 0 {
                push_token(tokens, &cur);
                proof {
                    lemma_flag_snoc(emitted, cur@, pending);
                }
                let step: (usize, bool) = token_step(&cur, idx_now, p_now);
                idx_now = step.0;
                p_now = step.1;
                proof {
                    emitted = emitted.push(cur@);
                    assert(tokens.deep_view() =~= tokens0 + emitted);
                    assert((emitted + ws_split(s@.skip(j as int + 1), Seq::<char>::empty()))
                        =~= target);
                }
            } else {
                proof {
                    assert(emitted + ws_split(s@.skip(j as int + 1), Seq::<char>::empty())
                        =~= target);
                }
            }
            cur = Vec::new();
        } else {
            cur.push(c);
        }
        j = j + 1;
    }
    proof {
        assert(s@.skip(n as int) =~= Seq::<char>::empty());
    }
    if cur.len() > 0 {
        push_token(tokens, &cur);
        proof {
            lemma_flag_snoc(emitted, cur@, pending);
        }
        let step: (usize, bool) = token_step(&cur, idx_now, p_now);
        idx_now = step.0;
        p_now = step.1;
        proof {
            emitted = emitted.push(cur@);
            assert(tokens.deep_view() =~= tokens0 + emitted);
            assert(emitted =~= target);
        }
    } else {
        proof {
            assert(emitted =~= target);
        }
    }
    (idx_now, p_now)
}

/// Handles one raw source line: records a label, or emits the line's
/// tokens while advancing the word index and payload flag.
fn process_line(
    line: &Vec<char>,
    tokens: &mut Vec<String>,
    table: &mut LabelTable,
    idx: usize,
    pending: bool,
) -> (r: (usize, bool))
    requires
        idx + line@.len() <= usize::MAX,
    ensures
        final(tokens).deep_view() == old(tokens).deep_view() + line_tokens(clean_line(line@)),
        final(table)@ == old(table)@ + line_labels(clean_line(line@), idx as nat),
        r.0 as nat == idx as nat + count_flag(line_tokens(clean_line(line@)), pending),
        r.1 == flag_after(line_tokens(clean_line(line@)), pending),
        idx <= r.0 <= idx + line@.len(),
{
    let clean: Vec<char> = clean_of_line(line);
    let ghost l = clean_line(line@);
    let n_c: usize = clean.len();
    if n_c == 0 {
        proof {
            assert(line_tokens(l) =~= Seq::<Seq<char>>::empty());
            assert(tokens.deep_view() =~= tokens.deep_view() + line_tokens(l));
            assert(line_labels(l, idx as nat) =~= Seq::<(Seq<char>, nat)>::empty());
            assert(table@ =~= table@ + line_labels(l, idx as nat));
        }
        return (idx, pending);
    }
    if clean[n_c - 1] == ':' {
        let name_vec: Vec<char> = copy_range(&clean, 0, n_c - 1);
        proof {
            assert(is_label_line(l));
            assert(name_vec@ =~= label_name(l));
        }
        let name: String = string_from_chars(&name_vec);
        let ghost table0 = table@;
        table.insert(name, idx);
        proof {
            assert(table@ =~= table0 + line_labels(l, idx as nat));
            assert(line_tokens(l) =~= Seq::<Seq<char>>::empty());
            assert(tokens.deep_view() =~= tokens.deep_view() + line_tokens(l));
        }
        return (idx, pending);
    }
    proof {
        assert(!is_label_line(l));
    }
    let is_ds_alone: bool = n_c == 2 && clean[0] == 'd' && clean[1] == 's';
    let is_ds_args: bool = n_c >= 3 && clean[0] == 'd' && clean[1] == 's' && clean[2] == ' ';
    if is_ds_alone || is_ds_args {
        proof {
            reveal_strlit("ds");
            reveal_strlit("ds ");
            if is_ds_alone {
                assert(l =~= "ds"@);
            } else {
                assert(l.take(3) =~= "ds "@);
            }
            assert(is_ds_line(l));
        }
        let ghost tokens0 = tokens.deep_view();
        let mut marker: Vec<char> = Vec::new();
        marker.push('d');
        marker.push('s');
        proof {
            reveal_strlit("ds");
            assert(marker@ =~= "ds"@);
        }
        push_token(tokens, &marker);
        // the marker itself advances the index only when it stands where
        // a payload is expected
        let idx_m: usize;
        let p_m: bool;
        if pending {
            idx_m = idx + 1;
            p_m = false;
        } else {
            idx_m = idx;
            p_m = true;
        }
        proof {
            reveal_strlit("ds");
            assert("ds"@.len() == 2);
            assert(strip_quotes("ds"@) == "ds"@);
            assert(contribution("ds"@, pending) == (if pending {
                1nat
            } else {
                0nat
            }));
            assert(p_m == next_flag("ds"@, pending));
            assert(tokens.deep_view() =~= tokens0 + seq!["ds"@]);
        }
        if is_ds_args {
            let s: Vec<char> = copy_range(&clean, 3, n_c);
            proof {
                assert(s@ =~= l.skip(3));
                assert(l != "ds"@);
                assert(ds_args(l) == ds_split(l.skip(3), false, Seq::<char>::empty()));
            }
            let step: (usize, bool) = ds_args_loop(&s, tokens, idx_m, p_m);
            proof {
                let args = ds_split(l.skip(3), false, Seq::<char>::empty());
                let toks = line_tokens(l);
                assert(toks == seq!["ds"@] + args);
                assert(toks[0] == "ds"@);
                assert(toks.drop_first() =~= args);
                assert(count_flag(toks, pending) == contribution("ds"@, pending) + count_flag(
                    args,
                    p_m,
                ));
                assert(flag_after(toks, pending) == flag_after(args, p_m));
                assert(tokens.deep_view() =~= tokens0 + toks);
                assert(table@ =~= table@ + line_labels(l, idx as nat));
            }
            step
        } else {
            proof {
                let toks = line_tokens(l);
                assert(ds_args(l) =~= Seq::<Seq<char>>::empty());
                assert(toks =~= seq!["ds"@]);
                assert(toks[0] == "ds"@);
                assert(toks.drop_first() =~= Seq::<Seq<char>>::empty());
                assert(count_flag(Seq::<Seq<char>>::empty(), next_flag("ds"@, pending)) == 0);
                assert(flag_after(Seq::<Seq<char>>::empty(), next_flag("ds"@, pending))
                    == next_flag("ds"@, pending));
                assert(count_flag(toks, pending) == contribution("ds"@, pending));
                assert(flag_after(toks, pending) == p_m);
                assert(tokens.deep_view() =~= tokens0 + toks);
                assert(table@ =~= table@ + line_labels(l, idx as nat));
            }
            (idx_m, p_m)
        }
    } else {
        proof {
            reveal_strlit("ds");
            reveal_strlit("ds ");
            if l == "ds"@ {
                assert(l.len() == 2 && l[0] == 'd' && l[1] == 's');
                assert(false);
            }
            if l.len() >= 3 && l.take(3) == "ds "@ {
                assert(l.take(3)[0] == l[0] && l.take(3)[1] == l[1] && l.take(3)[2] == l[2]);
                assert(l[0] == 'd' && l[1] == 's' && l[2] == ' ');
                assert(false);
            }
            assert(!is_ds_line(l));
            assert(line_tokens(l) == ws_split(l, Seq::<char>::empty()));
        }
        let step: (usize, bool) = ws_loop(&clean, tokens, idx, pending);
        proof {
            assert(table@ =~= table@ + line_labels(l, idx as nat));
        }
        step
    }
}

/// Turns source text into its token list and label table. Tokens appear
/// in source order; each label is bound to the word index of the output
/// position its declaration stands at.
pub fn tokenize(input: &str) -> (r: (Vec<String>, LabelTable))
    ensures
        r.0.deep_view() == spec_tokens(input@),
        r.1@ == spec_labels(input@),
{
    let cs: Vec<char> = chars_of(input);
    let f: Vec<char> = filter_cr(&cs);
    let n: usize = f.len();
    let ghost full = tok_lines(split_lines(strip_cr(input@)), 0, false);
    let mut tokens: Vec<String> = Vec::new();
    let mut table: LabelTable = LabelTable::new();
    let mut idx: usize = 0;
    let mut pending: bool = false;
    let mut pos: usize = 0;
    proof {
        assert(f@.skip(0) =~= f@);
        assert(tokens.deep_view() =~= Seq::<Seq<char>>::empty());
        assert(tokens.deep_view() + tok_lines(split_lines(f@), 0nat, false).0 =~= full.0);
        assert(table@ + tok_lines(split_lines(f@), 0nat, false).1 =~= full.1);
    }
    while pos < n
        invariant
            pos <= n,
            n == f@.len(),
            f@ == strip_cr(input@),
            idx <= pos,
            full == tok_lines(split_lines(strip_cr(input@)), 0, false),
            full.0 == tokens.deep_view() + tok_lines(
                split_lines(f@.skip(pos as int)),
                idx as nat,
                pending,
            ).0,
            full.1 == table@ + tok_lines(
                split_lines(f@.skip(pos as int)),
                idx as nat,
                pending,
            ).1,
        decreases n - pos,
    {
        let mut e: usize = pos;
        while e < n && f[e] != '\n'
            invariant
                pos <= e <= n,
                n == f@.len(),
                forall|i: int| pos <= i < e ==> f@[i] != '\n',
            decreases n - e,
        {
            e = e + 1;
        }
        let ghost rel = f@.skip(pos as int);
        proof {
            assert forall|i: int| 0 <= i < e - pos implies rel[i] != '\n' by {
                assert(rel[i] == f@[i + pos]);
            }
            if e < n {
                assert(rel[e - pos] == f@[e as int]);
            }
            lemma_find_first_is(rel, '\n', e - pos);
        }
        let line: Vec<char> = copy_range(&f, pos, e);
        proof {
            assert(line@ =~= rel.take(e - pos));
        }
        let ghost lines_here = split_lines(rel);
        let ghost idx0 = idx as nat;
        let ghost p0 = pending;
        let ghost pos0 = pos as int;
        let ghost before = tok_lines(lines_here, idx0, p0);
        let step: (usize, bool) = process_line(&line, &mut tokens, &mut table, idx, pending);
        idx = step.0;
        pending = step.1;
        if e < n {
            pos = e + 1;
        } else {
            pos = n;
        }
        proof {
            let l0 = clean_line(line@);
            let toks0 = line_tokens(l0);
            let rest = tok_lines(
                lines_here.drop_first(),
                idx0 + count_flag(toks0, p0),
                flag_after(toks0, p0),
            );
            let after = tok_lines(split_lines(f@.skip(pos as int)), idx as nat, pending);
            assert(lines_here.len() > 0);
            if e < n {
                assert(find_first(rel, '\n') == e - pos0);
                assert(lines_here == seq![rel.take(e - pos0)] + split_lines(
                    rel.skip(e - pos0 + 1),
                ));
                assert(lines_here[0] == line@);
                assert(rel.skip(e - pos0 + 1) =~= f@.skip(pos as int));
                assert(lines_here.drop_first() =~= split_lines(f@.skip(pos as int)));
                assert(before.0 == toks0 + rest.0);
                assert(before.1 == line_labels(l0, idx0) + rest.1);
                assert(after == rest);
                assert(full.0 =~= tokens.deep_view() + after.0);
                assert(full.1 =~= table@ + after.1);
            } else {
                assert(e == n);
                assert(find_first(rel, '\n') == rel.len());
                assert(lines_here == seq![rel]);
                assert(line@ =~= rel);
                assert(lines_here[0] == line@);
                assert(lines_here.drop_first() =~= Seq::<Seq<char>>::empty());
                assert(before.0 == toks0 + rest.0);
                assert(before.1 == line_labels(l0, idx0) + rest.1);
                assert(rest.0 =~= Seq::<Seq<char>>::empty());
                assert(rest.1 =~= Seq::<(Seq<char>, nat)>::empty());
                // the empty remainder splits into one empty line, which
                // contributes nothing
                assert(f@.skip(pos as int) =~= Seq::<char>::empty());
                let empty_line = Seq::<char>::empty();
                assert(find_first(empty_line, '\n') == 0);
                assert(split_lines(empty_line) == seq![empty_line]);
                assert(clean_line(empty_line) =~= empty_line);
                assert(line_tokens(empty_line) =~= Seq::<Seq<char>>::empty());
                assert(line_labels(empty_line, idx as nat) =~= Seq::<(Seq<char>, nat)>::empty());
                let inner = tok_lines(
                    Seq::<Seq<char>>::empty(),
                    idx as nat + count_flag(line_tokens(clean_line(empty_line)), pending),
                    flag_after(line_tokens(clean_line(empty_line)), pending),
                );
                assert(inner.0 =~= Seq::<Seq<char>>::empty());
                assert(inner.1 =~= Seq::<(Seq<char>, nat)>::empty());
                assert(seq![empty_line].drop_first() =~= Seq::<Seq<char>>::empty());
                assert(after.0 == line_tokens(clean_line(empty_line)) + tok_lines(
                    seq![empty_line].drop_first(),
                    idx as nat + count_flag(line_tokens(clean_line(empty_line)), pending),
                    flag_after(line_tokens(clean_line(empty_line)), pending),
                ).0);
                assert(after.0 =~= Seq::<Seq<char>>::empty());
                assert(after.1 =~= Seq::<(Seq<char>, nat)>::empty());
                assert(full.0 =~= tokens.deep_view() + after.0);
                assert(full.1 =~= table@ + after.1);
            }
        }
    }
    proof {
        assert(f@.skip(pos as int) =~= Seq::<char>::empty());
        let after = tok_lines(split_lines(f@.skip(pos as int)), idx as nat, pending);
        let empty_line = Seq::<char>::empty();
        assert(find_first(empty_line, '\n') == 0);
        assert(split_lines(empty_line) == seq![empty_line]);
        assert(clean_line(empty_line) =~= empty_line);
        assert(line_tokens(empty_line) =~= Seq::<Seq<char>>::empty());
        assert(line_labels(empty_line, idx as nat) =~= Seq::<(Seq<char>, nat)>::empty());
        let inner = tok_lines(
            Seq::<Seq<char>>::empty(),
            idx as nat + count_flag(line_tokens(clean_line(empty_line)), pending),
            flag_after(line_tokens(clean_line(empty_line)), pending),
        );
        assert(inner.0 =~= Seq::<Seq<char>>::empty());
        assert(inner.1 =~= Seq::<(Seq<char>, nat)>::empty());
        assert(seq![empty_line].drop_first() =~= Seq::<Seq<char>>::empty());
        assert(after.0 == line_tokens(clean_line(empty_line)) + tok_lines(
            seq![empty_line].drop_first(),
            idx as nat + count_flag(line_tokens(clean_line(empty_line)), pending),
            flag_after(line_tokens(clean_line(empty_line)), pending),
        ).0);
        assert(after.0 =~= Seq::<Seq<char>>::empty());
        assert(after.1 =~= Seq::<(Seq<char>, nat)>::empty());
        assert(tokens.deep_view() =~= full.0);
        assert(table@ =~= full.1);
    }
    (tokens, table)
}

/// What a whole source text assembles to: its words, or the first
/// unresolved token.
pub open spec fn spec_assemble(input: Seq<char>) -> Result<Seq<u16>, Seq<char>> {
    spec_parse(spec_tokens(input), spec_labels(input))
}

/// Runs the whole pipeline: tokenize, then resolve, with the implicit
/// `hlt` terminator appended to any non-empty program that lacks one.
pub fn assemble(input: &str) -> (r: Result<Vec<u16>, UnresolvedToken>)
    ensures
        match r {
            Ok(ws) => spec_assemble(input@) == Ok::<Seq<u16>, Seq<char>>(ws@),
            Err(e) => spec_assemble(input@) == Err::<Seq<u16>, Seq<char>>(e.0@),
        },
{
    let (tokens, table) = tokenize(input);
    parse_tokens(tokens, &table)
}

} // verus!
