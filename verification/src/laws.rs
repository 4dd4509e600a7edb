//! Assembler-wide guarantees, proved against the tokenizer and resolver
//! models: the implicit terminator closes every well-formed program, and
//! a label's recorded index is exactly the count of words emitted before
//! its declaration, which is what a reference to it resolves to.
use vstd::prelude::*;

use crate::cpu::{opcode_for, OpcodeType};
use crate::encode::{parse_from, spec_parse, with_hlt, word_of};
use crate::labels::lookup_entries;
use crate::pack::{lemma_pack_words_len, pack_words, strip_quotes};
use crate::scan::{
    clean_line, contribution, count_flag, flag_after, is_label_line, label_name, line_labels,
    line_tokens, next_flag, tok_lines,
};
use crate::text::{lower_char, lower_seq};

verus! {

/// Whether the token run starting at `i` ends in a `ds` directive still
/// waiting for its payload, so that an appended token would be swallowed
/// as string data instead of being resolved.
pub open spec fn pending_suffix(toks: Seq<Seq<char>>, i: int) -> bool
    decreases toks.len() - i,
{
    if i < 0 || i >= toks.len() {
        false
    } else if toks[i] == "ds"@ {
        if i + 1 >= toks.len() {
            true
        } else {
            pending_suffix(toks, i + 2)
        }
    } else {
        pending_suffix(toks, i + 1)
    }
}

/// The mnemonic `hlt` resolves to the halt opcode in every label
/// environment: its lookup precedes every other identifier class.
pub proof fn lemma_hlt_resolves(entries: Seq<(Seq<char>, nat)>)
    ensures
        word_of("hlt"@, entries) == Some(0xFFu16),
        "hlt"@ != "ds"@,
{
    reveal_strlit("load");
    reveal_strlit("store");
    reveal_strlit("add");
    reveal_strlit("sub");
    reveal_strlit("jmp");
    reveal_strlit("hlt");
    reveal_strlit("ds");
    assert(lower_seq("hlt"@) =~= "hlt"@) by {
        assert(lower_seq("hlt"@).len() == 3);
        assert(lower_char('h') == 'h');
        assert(lower_char('l') == 'l');
        assert(lower_char('t') == 't');
    }
    assert("hlt"@ != "load"@);
    assert("hlt"@ != "store"@);
    assert("hlt"@ != "add"@) by {
        assert("hlt"@[0] == 'h' && "add"@[0] == 'a');
    }
    assert("hlt"@ != "sub"@) by {
        assert("hlt"@[0] == 'h' && "sub"@[0] == 's');
    }
    assert("hlt"@ != "jmp"@) by {
        assert("hlt"@[0] == 'h' && "jmp"@[0] == 'j');
    }
    assert(opcode_for("hlt"@) == Some(OpcodeType::Hlt));
}

/// Appending a resolvable non-`ds` token to a token run that is not
/// waiting for a payload appends exactly its word to the output.
pub proof fn lemma_parse_push(
    toks: Seq<Seq<char>>,
    entries: Seq<(Seq<char>, nat)>,
    i: int,
    t: Seq<char>,
    w: u16,
)
    requires
        0 <= i <= toks.len(),
        !pending_suffix(toks, i),
        t != "ds"@,
        word_of(t, entries) == Some(w),
    ensures
        parse_from(toks.push(t), entries, i) == (match parse_from(toks, entries, i) {
            Ok(ws) => Ok::<Seq<u16>, Seq<char>>(ws + seq![w]),
            Err(x) => Err::<Seq<u16>, Seq<char>>(x),
        }),
    decreases toks.len() - i,
{
    let p = toks.push(t);
    if i == toks.len() {
        assert(p[i] == t);
        assert(parse_from(p, entries, i + 1) == Ok::<Seq<u16>, Seq<char>>(Seq::empty()));
        assert(parse_from(p, entries, i) == Ok::<Seq<u16>, Seq<char>>(seq![w] + Seq::empty()));
        assert(seq![w] + Seq::<u16>::empty() =~= Seq::<u16>::empty() + seq![w]);
    } else {
        assert(p[i] == toks[i]);
        if toks[i] == "ds"@ {
            assert(i + 1 < toks.len());
            assert(p[i + 1] == toks[i + 1]);
            lemma_parse_push(toks, entries, i + 2, t, w);
            match parse_from(toks, entries, i + 2) {
                Ok(ws) => {
                    assert(pack_words(strip_quotes(toks[i + 1])) + (ws + seq![w])
                        =~= (pack_words(strip_quotes(toks[i + 1])) + ws) + seq![w]);
                },
                Err(_) => {},
            }
        } else {
            match word_of(toks[i], entries) {
                Some(w0) => {
                    lemma_parse_push(toks, entries, i + 1, t, w);
                    match parse_from(toks, entries, i + 1) {
                        Ok(ws) => {
                            assert(seq![w0] + (ws + seq![w]) =~= (seq![w0] + ws) + seq![w]);
                        },
                        Err(_) => {},
                    }
                },
                None => {},
            }
        }
    }
}

/// Every program that does not end in `hlt`, and does not end in a `ds`
/// directive still waiting for its payload, assembles to a word sequence
/// whose final word is the halt opcode: the implicit terminator.
pub proof fn lemma_implicit_terminator(toks: Seq<Seq<char>>, entries: Seq<(Seq<char>, nat)>)
    requires
        toks.len() > 0,
        toks.last() != "hlt"@,
        !pending_suffix(toks, 0),
        spec_parse(toks, entries) is Ok,
    ensures
        spec_parse(toks, entries)->Ok_0.len() > 0,
        spec_parse(toks, entries)->Ok_0.last() == 0xFFu16,
{
    lemma_hlt_resolves(entries);
    assert(with_hlt(toks) == toks.push("hlt"@));
    lemma_parse_push(toks, entries, 0, "hlt"@, 0xFFu16);
    match parse_from(toks, entries, 0) {
        Ok(ws) => {
            assert(spec_parse(toks, entries)->Ok_0 == ws + seq![0xFFu16]);
        },
        Err(_) => {
            assert(false);
        },
    }
}

/// A source program whose token stream does not end in `hlt`, nor in a
/// `ds` directive waiting for its payload, assembles to words ending in
/// the halt opcode.
pub proof fn lemma_program_terminated(input: Seq<char>)
    requires
        crate::scan::spec_tokens(input).len() > 0,
        crate::scan::spec_tokens(input).last() != "hlt"@,
        !pending_suffix(crate::scan::spec_tokens(input), 0),
        crate::assemble::spec_assemble(input) is Ok,
    ensures
        crate::assemble::spec_assemble(input)->Ok_0.len() > 0,
        crate::assemble::spec_assemble(input)->Ok_0.last() == 0xFFu16,
{
    lemma_implicit_terminator(
        crate::scan::spec_tokens(input),
        crate::scan::spec_labels(input),
    );
}

/// A successful resolution emits exactly as many words as the
/// tokenizer's word counter assigns to the same tokens.
pub proof fn lemma_parse_word_count(
    toks: Seq<Seq<char>>,
    entries: Seq<(Seq<char>, nat)>,
    i: int,
)
    requires
        0 <= i <= toks.len(),
        parse_from(toks, entries, i) is Ok,
    ensures
        parse_from(toks, entries, i)->Ok_0.len() == count_flag(toks.skip(i), false),
    decreases toks.len() - i,
{
    let rest = toks.skip(i);
    if i == toks.len() {
        assert(rest =~= Seq::<Seq<char>>::empty());
    } else {
        assert(rest[0] == toks[i]);
        assert(rest.drop_first() =~= toks.skip(i + 1));
        if toks[i] == "ds"@ {
            assert(contribution(rest[0], false) == 0);
            assert(next_flag(rest[0], false));
            if i + 1 >= toks.len() {
                assert(rest.drop_first() =~= Seq::<Seq<char>>::empty());
                assert(count_flag(Seq::<Seq<char>>::empty(), true) == 0);
                assert(count_flag(rest, false) == contribution(rest[0], false) + count_flag(
                    rest.drop_first(),
                    next_flag(rest[0], false),
                ));
                assert(count_flag(rest, false) == 0);
                assert(parse_from(toks, entries, i)->Ok_0.len() == 0);
            } else {
                let rest2 = rest.drop_first();
                assert(rest2[0] == toks[i + 1]);
                assert(rest2.drop_first() =~= toks.skip(i + 2));
                lemma_parse_word_count(toks, entries, i + 2);
                lemma_pack_words_len(strip_quotes(toks[i + 1]));
                assert(contribution(toks[i + 1], true) == pack_words(
                    strip_quotes(toks[i + 1]),
                ).len());
                assert(next_flag(toks[i + 1], true) == false);
                assert(count_flag(rest, false) == count_flag(rest2, true));
                assert(count_flag(rest2, true) == contribution(toks[i + 1], true) + count_flag(
                    toks.skip(i + 2),
                    false,
                ));
                assert(parse_from(toks, entries, i)->Ok_0 == pack_words(strip_quotes(toks[i + 1]))
                    + parse_from(toks, entries, i + 2)->Ok_0);
            }
        } else {
            assert(word_of(toks[i], entries) is Some);
            assert(contribution(rest[0], false) == 1);
            assert(next_flag(rest[0], false) == false);
            lemma_parse_word_count(toks, entries, i + 1);
            assert(count_flag(rest, false) == 1 + count_flag(toks.skip(i + 1), false));
            assert(parse_from(toks, entries, i)->Ok_0 == seq![
                word_of(toks[i], entries)->Some_0,
            ] + parse_from(toks, entries, i + 1)->Ok_0);
        }
    }
}

/// The tokens of a line sequence, line by line.
pub open spec fn tokens_of_lines(lines: Seq<Seq<char>>) -> Seq<Seq<char>>
    decreases lines.len(),
{
    if lines.len() == 0 {
        Seq::empty()
    } else {
        line_tokens(clean_line(lines[0])) + tokens_of_lines(lines.drop_first())
    }
}

/// The word counter distributes over concatenation, the payload flag
/// threading through.
pub proof fn lemma_count_flag_concat(a: Seq<Seq<char>>, b: Seq<Seq<char>>, p: bool)
    ensures
        count_flag(a + b, p) == count_flag(a, p) + count_flag(b, flag_after(a, p)),
        flag_after(a + b, p) == flag_after(b, flag_after(a, p)),
    decreases a.len(),
{
    if a.len() == 0 {
        assert(a + b =~= b);
    } else {
        assert((a + b)[0] == a[0]);
        assert((a + b).drop_first() =~= a.drop_first() + b);
        lemma_count_flag_concat(a.drop_first(), b, next_flag(a[0], p));
    }
}

/// The token list a line sequence produces does not depend on the word
/// counter's starting state.
pub proof fn lemma_tok_lines_tokens(lines: Seq<Seq<char>>, idx: nat, p: bool)
    ensures
        tok_lines(lines, idx, p).0 == tokens_of_lines(lines),
    decreases lines.len(),
{
    if lines.len() > 0 {
        let toks = line_tokens(clean_line(lines[0]));
        lemma_tok_lines_tokens(lines.drop_first(), idx + count_flag(toks, p), flag_after(toks, p));
    }
}

/// A label line binds its name to the word index reached after all the
/// tokens of the preceding lines: the exact output position of the words
/// that follow its declaration.
pub proof fn lemma_label_records_word_index(
    lines: Seq<Seq<char>>,
    idx: nat,
    p: bool,
    k: int,
)
    requires
        0 <= k < lines.len(),
        is_label_line(clean_line(lines[k])),
    ensures
        tok_lines(lines, idx, p).1.contains(
            (
                label_name(clean_line(lines[k])),
                idx + count_flag(tokens_of_lines(lines.take(k)), p),
            ),
        ),
    decreases k,
{
    let l0 = clean_line(lines[0]);
    let toks0 = line_tokens(l0);
    let rest = tok_lines(lines.drop_first(), idx + count_flag(toks0, p), flag_after(toks0, p));
    if k == 0 {
        assert(lines.take(0) =~= Seq::<Seq<char>>::empty());
        assert(count_flag(tokens_of_lines(lines.take(0)), p) == 0);
        assert(line_tokens(l0) =~= Seq::<Seq<char>>::empty());
        assert(count_flag(toks0, p) == 0);
        let entry = (label_name(l0), idx);
        assert(tok_lines(lines, idx, p).1 == line_labels(l0, idx) + rest.1);
        assert(line_labels(l0, idx) == seq![entry]);
        assert((line_labels(l0, idx) + rest.1)[0] == entry);
    } else {
        lemma_label_records_word_index(
            lines.drop_first(),
            idx + count_flag(toks0, p),
            flag_after(toks0, p),
            k - 1,
        );
        assert(lines.drop_first()[k - 1] == lines[k]);
        let pre = tokens_of_lines(lines.drop_first().take(k - 1));
        lemma_count_flag_concat(toks0, pre, p);
        assert(lines.take(k)[0] == lines[0]);
        assert(lines.take(k).drop_first() =~= lines.drop_first().take(k - 1));
        assert(tokens_of_lines(lines.take(k)) == line_tokens(clean_line(lines[0]))
            + tokens_of_lines(lines.drop_first().take(k - 1)));
        assert(idx + count_flag(toks0, p) + count_flag(pre, flag_after(toks0, p)) == idx
            + count_flag(tokens_of_lines(lines.take(k)), p));
        let entry = (
            label_name(clean_line(lines[k])),
            idx + count_flag(tokens_of_lines(lines.take(k)), p),
        );
        assert(rest.1.contains(entry));
        let j = choose|j: int| 0 <= j < rest.1.len() && rest.1[j] == entry;
        assert(tok_lines(lines, idx, p).1 == line_labels(l0, idx) + rest.1);
        assert((line_labels(l0, idx) + rest.1)[line_labels(l0, idx).len() + j] == entry);
    }
}

/// In a whole source program, a label line binds its name to the number
/// of words the tokens of the preceding lines emit: the output position
/// of the declaration.
pub proof fn lemma_source_label_index(input: Seq<char>, k: int)
    requires
        0 <= k < crate::scan::split_lines(crate::scan::strip_cr(input)).len(),
        is_label_line(clean_line(crate::scan::split_lines(crate::scan::strip_cr(input))[k])),
    ensures
        crate::scan::spec_labels(input).contains(
            (
                label_name(clean_line(crate::scan::split_lines(crate::scan::strip_cr(input))[k])),
                count_flag(
                    tokens_of_lines(crate::scan::split_lines(crate::scan::strip_cr(input)).take(k)),
                    false,
                ),
            ),
        ),
{
    lemma_label_records_word_index(
        crate::scan::split_lines(crate::scan::strip_cr(input)),
        0,
        false,
        k,
    );
}

/// A token that matches no reserved identifier class resolves through
/// the label table: a binding of `n` below the word-size bound resolves
/// to exactly `n`.
pub proof fn lemma_label_reference_resolves(
    t: Seq<char>,
    entries: Seq<(Seq<char>, nat)>,
    n: nat,
)
    requires
        crate::cpu::opcode_for(t) is None,
        crate::cpu::register_for(t) is None,
        !crate::encode::is_u16_lit(t),
        !crate::encode::is_char_lit(t),
        crate::cpu::function_for(t) is None,
        lookup_entries(entries, t) == Some(n),
        n < 0x10000,
    ensures
        word_of(t, entries) == Some(n as u16),
{
}

} // verus!
