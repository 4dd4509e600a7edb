//! Token resolution: every token becomes words. A `ds` marker consumes
//! the following token as a string payload; any other token is tried, in
//! this order, as an instruction mnemonic, a register name, an unsigned
//! decimal literal, a character literal, a runtime-call name, and last a
//! declared label. A token matching none of these classes is a hard
//! failure carrying the token itself; it is never skipped or zero-filled.
//!
//! Before resolution the token stream of a non-empty program is closed
//! with an implicit `hlt` unless it already ends with one.
use vstd::prelude::*;
use vstd::string::*;

use crate::cpu::{
    function_code, function_for, opcode_code, opcode_for, register_code, register_for,
    FunctionCall, OpcodeType, Register,
};
use crate::labels::{lookup_entries, LabelTable};
use crate::pack::{pack_words, strip_quotes};

verus! {

/// A token that matches no identifier class and no label: assembly
/// stops and reports it.
#[derive(Debug)]
pub struct UnresolvedToken(pub String);

pub open spec fn is_dec_digit(c: char) -> bool {
    '0' <= c && c <= '9'
}

pub open spec fn digit_val(c: char) -> nat {
    if is_dec_digit(c) {
        (c as int - '0' as int) as nat
    } else {
        0
    }
}

/// The value of a digit string, most significant digit first.
pub open spec fn dec_val(s: Seq<char>) -> nat
    decreases s.len(),
{
    if s.len() == 0 {
        0
    } else {
        dec_val(s.drop_last()) * 10 + digit_val(s.last())
    }
}

pub open spec fn is_dec(s: Seq<char>) -> bool {
    s.len() > 0 && (forall|i: int| 0 <= i < s.len() ==> is_dec_digit(s[i]))
}

/// An unsigned decimal literal that fits in a 16-bit word.
pub open spec fn is_u16_lit(s: Seq<char>) -> bool {
    is_dec(s) && dec_val(s) < 0x10000
}

/// Exactly a quote, one character, a quote.
pub open spec fn is_char_lit(s: Seq<char>) -> bool {
    s.len() == 3 && s[0] == '\'' && s[2] == '\''
}

/// A character's code point reduced to one word.
pub open spec fn char_word(c: char) -> u16 {
    (((c as u32) as int) % 0x10000) as u16
}

/// A label's recorded word index reduced to one word.
pub open spec fn label_word(n: nat) -> u16 {
    ((n as int) % 0x10000) as u16
}

/// The word a single token resolves to, tried against each identifier
/// class in priority order, or nothing when every class misses.
pub open spec fn word_of(t: Seq<char>, entries: Seq<(Seq<char>, nat)>) -> Option<u16> {
    if opcode_for(t) is Some {
        Some(opcode_code(opcode_for(t)->Some_0))
    } else if register_for(t) is Some {
        Some(register_code(register_for(t)->Some_0))
    } else if is_u16_lit(t) {
        Some(dec_val(t) as u16)
    } else if is_char_lit(t) {
        Some(char_word(t[1]))
    } else if function_for(t) is Some {
        Some(function_code(function_for(t)->Some_0))
    } else if lookup_entries(entries, t) is Some {
        Some(label_word(lookup_entries(entries, t)->Some_0))
    } else {
        None
    }
}

/// The token stream closed with the implicit program terminator.
pub open spec fn with_hlt(toks: Seq<Seq<char>>) -> Seq<Seq<char>> {
    if toks.len() > 0 && toks.last() != "hlt"@ {
        toks.push("hlt"@)
    } else {
        toks
    }
}

/// The words the tokens from position `i` on resolve to, or the first
/// unresolved token. A `ds` marker consumes the next token as payload;
/// one with nothing following ends the run.
pub open spec fn parse_from(
    toks: Seq<Seq<char>>,
    entries: Seq<(Seq<char>, nat)>,
    i: int,
) -> Result<Seq<u16>, Seq<char>>
    decreases toks.len() - i,
{
    if i < 0 || i >= toks.len() {
        Ok(Seq::empty())
    } else if toks[i] == "ds"@ {
        if i + 1 >= toks.len() {
            Ok(Seq::empty())
        } else {
            match parse_from(toks, entries, i + 2) {
                Ok(rest) => Ok(pack_words(strip_quotes(toks[i + 1])) + rest),
                Err(t) => Err(t),
            }
        }
    } else {
        match word_of(toks[i], entries) {
            Some(w) => match parse_from(toks, entries, i + 1) {
                Ok(rest) => Ok(seq![w] + rest),
                Err(t) => Err(t),
            },
            None => Err(toks[i]),
        }
    }
}

/// The whole resolution: implicit terminator, then every token.
pub open spec fn spec_parse(toks: Seq<Seq<char>>, entries: Seq<(Seq<char>, nat)>) -> Result<
    Seq<u16>,
    Seq<char>,
> {
    parse_from(with_hlt(toks), entries, 0)
}

/// Appending digits only grows a digit string's value.
pub proof fn lemma_dec_val_grows(s: Seq<char>, k: int)
    requires
        0 <= k <= s.len(),
    ensures
        dec_val(s) >= dec_val(s.take(k)),
    decreases s.len() - k,
{
    if k < s.len() {
        lemma_dec_val_grows(s, k + 1);
        let t = s.take(k + 1);
        assert(t.drop_last() =~= s.take(k));
        assert(dec_val(t) == dec_val(s.take(k)) * 10 + digit_val(t.last()));
    } else {
        assert(s.take(k) =~= s);
    }
}

/// Parses an unsigned decimal literal that fits in 16 bits.
fn parse_u16_str(s: &str) -> (r: Option<u16>)
    ensures
        r == (if is_u16_lit(s@) {
            Some(dec_val(s@) as u16)
        } else {
            None::<u16>
        }),
{
    let n: usize = s.unicode_len();
    if n == 0 {
        return None;
    }
    let mut value: u32 = 0;
    let mut i: usize = 0;
    while i < n
        invariant
            n as int == s@.len(),
            n > 0,
            i <= n,
            forall|j: int| 0 <= j < i ==> is_dec_digit(s@[j]),
            value as nat == dec_val(s@.take(i as int)),
            value < 0x10000,
        decreases n - i,
    {
        let c: char = s.get_char(i);
        if c < '0' || c > '9' {
            proof {
                assert(!is_dec_digit(s@[i as int]));
                assert(!is_dec(s@));
            }
            return None;
        }
        let d: u32 = (c as u32) - ('0' as u32);
        let next: u32 = value * 10 + d;
        proof {
            let t = s@.take(i as int + 1);
            assert(t.drop_last() =~= s@.take(i as int));
            assert(t.last() == s@[i as int]);
            assert(digit_val(s@[i as int]) == d as nat);
            assert(next as nat == dec_val(t));
        }
        if next > 0xFFFF {
            proof {
                if is_dec(s@) {
                    lemma_dec_val_grows(s@, i as int + 1);
                    assert(dec_val(s@) >= dec_val(s@.take(i as int + 1)));
                    assert(!is_u16_lit(s@));
                }
            }
            return None;
        }
        value = next;
        i = i + 1;
    }
    proof {
        assert(s@.take(n as int) =~= s@);
        assert(is_dec(s@));
    }
    Some(value as u16)
}

fn char_word_exec(c: char) -> (r: u16)
    ensures
        r == char_word(c),
{
    let v: u32 = c as u32;
    (v % 0x10000) as u16
}

/// Resolves one token against the identifier classes in priority order.
pub fn resolve_token(t: &str, labels: &LabelTable) -> (r: Option<u16>)
    ensures
        r == word_of(t@, labels@),
{
    match OpcodeType::try_from(t) {
        Ok(op) => {
            return Some(op.code());
        },
        Err(_) => {},
    }
    match Register::try_from(t) {
        Ok(reg) => {
            return Some(reg.code());
        },
        Err(_) => {},
    }
    match parse_u16_str(t) {
        Some(v) => {
            return Some(v);
        },
        None => {},
    }
    let n: usize = t.unicode_len();
    if n == 3 {
        let c0: char = t.get_char(0);
        let c2: char = t.get_char(2);
        if c0 == '\'' && c2 == '\'' {
            let c1: char = t.get_char(1);
            return Some(char_word_exec(c1));
        }
    }
    match FunctionCall::try_from(t) {
        Ok(f) => {
            return Some(f.code());
        },
        Err(_) => {},
    }
    match labels.lookup(t) {
        Some(ix) => Some((ix % 0x10000) as u16),
        None => None,
    }
}

/// Resolves the whole token stream, closing it with the implicit `hlt`
/// first. Returns the words in source order, or the first token that
/// matches no identifier class and no label.
pub fn parse_tokens(tokens: Vec<String>, labels: &LabelTable) -> (r: Result<
    Vec<u16>,
    UnresolvedToken,
>)
    ensures
        match r {
            Ok(ws) => spec_parse(tokens.deep_view(), labels@) == Ok::<Seq<u16>, Seq<char>>(ws@),
            Err(e) => spec_parse(tokens.deep_view(), labels@) == Err::<Seq<u16>, Seq<char>>(
                e.0@,
            ),
        },
{
    let ghost orig = tokens.deep_view();
    let ghost toks = with_hlt(orig);
    let ghost entries = labels@;
    let n0: usize = tokens.len();
    let appended: bool = n0 > 0 && !crate::text::str_eq(tokens[n0 - 1].as_str(), "hlt");
    proof {
        assert(orig.len() == n0);
        if appended {
            assert(orig.last() == orig[n0 - 1]);
            assert(toks == orig.push("hlt"@));
        } else {
            assert(toks == orig);
        }
        assert(forall|j: int| 0 <= j < n0 ==> toks[j] == orig[j]);
    }
    let mut out: Vec<u16> = Vec::new();
    let mut i: usize = 0;
    while i < n0
        invariant
            i <= n0,
            n0 == tokens.len(),
            n0 == orig.len(),
            orig == tokens.deep_view(),
            toks == with_hlt(orig),
            entries == labels@,
            appended ==> toks == orig.push("hlt"@),
            !appended ==> toks == orig,
            i <= toks.len(),
            parse_from(toks, entries, 0) == (match parse_from(toks, entries, i as int) {
                Ok(rest) => Ok::<Seq<u16>, Seq<char>>(out@ + rest),
                Err(t) => Err::<Seq<u16>, Seq<char>>(t),
            }),
        decreases n0 - i,
    {
        proof {
            assert(toks[i as int] == tokens[i as int]@);
        }
        if crate::text::str_eq(tokens[i].as_str(), "ds") {
            i = i + 1;
            if i < n0 {
                proof {
                    assert(toks[i as int] == tokens[i as int]@);
                }
                let mut ws: Vec<u16> = crate::pack::pack_payload(tokens[i].as_str());
                let ghost ws_view = ws@;
                let ghost out0 = out@;
                out.append(&mut ws);
                i = i + 1;
                proof {
                    match parse_from(toks, entries, i as int) {
                        Ok(rest) => {
                            assert(parse_from(toks, entries, i as int - 2) == Ok::<
                                Seq<u16>,
                                Seq<char>,
                            >(ws_view + rest));
                            assert(out0 + (ws_view + rest) =~= out@ + rest);
                        },
                        Err(_) => {},
                    }
                }
            } else if appended {
                // the payload is the implicit terminator itself
                let mut ws: Vec<u16> = crate::pack::pack_payload("hlt");
                let ghost ws_view = ws@;
                let ghost out0 = out@;
                out.append(&mut ws);
                proof {
                    assert(toks[i as int] == "hlt"@);
                    assert(i + 1 == toks.len());
                    assert(parse_from(toks, entries, i + 1) == Ok::<Seq<u16>, Seq<char>>(
                        Seq::<u16>::empty(),
                    ));
                    assert(parse_from(toks, entries, i as int - 1) == Ok::<Seq<u16>, Seq<char>>(
                        ws_view + Seq::<u16>::empty(),
                    ));
                    assert(parse_from(toks, entries, 0) == Ok::<Seq<u16>, Seq<char>>(
                        out0 + (ws_view + Seq::<u16>::empty()),
                    ));
                    assert(out0 + (ws_view + Seq::<u16>::empty()) =~= out@);
                    assert(spec_parse(orig, entries) == Ok::<Seq<u16>, Seq<char>>(out@));
                }
                return Ok(out);
            } else {
                // a trailing `ds` with no payload ends the run
                proof {
                    assert(i as int == toks.len());
                    assert(parse_from(toks, entries, i as int - 1) == Ok::<Seq<u16>, Seq<char>>(
                        Seq::<u16>::empty(),
                    ));
                    assert(out@ + Seq::<u16>::empty() =~= out@);
                    assert(spec_parse(orig, entries) == Ok::<Seq<u16>, Seq<char>>(out@));
                }
                return Ok(out);
            }
        } else {
            match resolve_token(tokens[i].as_str(), labels) {
                Some(w) => {
                    let ghost out0 = out@;
                    out.push(w);
                    i = i + 1;
                    proof {
                        match parse_from(toks, entries, i as int) {
                            Ok(rest) => {
                                assert(parse_from(toks, entries, i as int - 1) == Ok::<
                                    Seq<u16>,
                                    Seq<char>,
                                >(seq![w] + rest));
                                assert(out0 + (seq![w] + rest) =~= out@ + rest);
                            },
                            Err(_) => {},
                        }
                    }
                },
                None => {
                    proof {
                        assert(parse_from(toks, entries, 0) == Err::<Seq<u16>, Seq<char>>(
                            toks[i as int],
                        ));
                        assert(spec_parse(orig, entries) == Err::<Seq<u16>, Seq<char>>(
                            toks[i as int],
                        ));
                    }
                    return Err(UnresolvedToken(tokens[i].clone()));
                },
            }
        }
    }
    if appended {
        // resolve the implicit terminator like any other token
        match resolve_token("hlt", labels) {
            Some(w) => {
                let ghost out0 = out@;
                out.push(w);
                proof {
                    reveal_strlit("hlt");
                    reveal_strlit("ds");
                    assert(toks[n0 as int] == "hlt"@);
                    assert(toks[n0 as int] != "ds"@);
                    assert(parse_from(toks, entries, n0 + 1) == Ok::<Seq<u16>, Seq<char>>(
                        Seq::<u16>::empty(),
                    ));
                    assert(parse_from(toks, entries, n0 as int) == Ok::<Seq<u16>, Seq<char>>(
                        seq![w] + Seq::<u16>::empty(),
                    ));
                    assert(out0 + (seq![w] + Seq::<u16>::empty()) =~= out@);
                    assert(spec_parse(orig, entries) == Ok::<Seq<u16>, Seq<char>>(out@));
                }
                Ok(out)
            },
            None => {
                proof {
                    reveal_strlit("hlt");
                    reveal_strlit("ds");
                    assert(toks[n0 as int] == "hlt"@);
                    assert(toks[n0 as int] != "ds"@);
                    assert(parse_from(toks, entries, n0 as int) == Err::<Seq<u16>, Seq<char>>(
                        "hlt"@,
                    ));
                    assert(parse_from(toks, entries, 0) == Err::<Seq<u16>, Seq<char>>("hlt"@));
                }
                Err(UnresolvedToken("hlt".to_owned()))
            },
        }
    } else {
        proof {
            assert(i as int == toks.len());
            assert(parse_from(toks, entries, i as int) == Ok::<Seq<u16>, Seq<char>>(
                Seq::<u16>::empty(),
            ));
            assert(out@ + Seq::<u16>::empty() =~= out@);
            assert(spec_parse(orig, entries) == Ok::<Seq<u16>, Seq<char>>(out@));
        }
        Ok(out)
    }
}

} // verus!
