//! The persisted form of the store: one JSON document, written and read
//! back by this module alone. Loading what was saved gives the store
//! back exactly; anything else may be refused, and the caller then
//! starts from an empty store.

use vstd::prelude::*;
use vstd::std_specs::iter::IteratorSpec;
use vstd::string::StringExecFns;

use crate::store::{Player, Profile, Profiles};
use crate::text::{dec_chars, render_chars, push_int_chars};

verus! {

/// The hexadecimal digit for `n` in `0..16`, lower case.
pub open spec fn hex_digit(n: int) -> char {
    if n < 10 {
        ((48 + n) as u8) as char
    } else {
        ((87 + n) as u8) as char
    }
}

/// How one character is written inside a JSON string.
pub open spec fn esc_char(c: char) -> Seq<char> {
    if c == '"' {
        seq!['\\', '"']
    } else if c == '\\' {
        seq!['\\', '\\']
    } else if (c as u32) < 32 {
        seq!['\\', 'u', '0', '0', hex_digit((c as u32 / 16) as int), hex_digit((c as u32 % 16) as int)]
    } else {
        seq![c]
    }
}

pub open spec fn esc(s: Seq<char>) -> Seq<char>
    decreases s.len(),
{
    if s.len() == 0 {
        Seq::empty()
    } else {
        esc_char(s[0]) + esc(s.skip(1))
    }
}

/// A JSON string: quotes around the escaped characters.
pub open spec fn enc_str(s: Seq<char>) -> Seq<char> {
    seq!['"'] + esc(s) + seq!['"']
}

/// A threshold list.
pub open spec fn enc_thr(t: Seq<i32>) -> Seq<char> {
    seq!['['] + render_chars(t[0] as int) + seq![','] + render_chars(t[1] as int) + seq![',']
        + render_chars(t[2] as int) + seq![','] + render_chars(t[3] as int) + seq![']']
}

/// One profile entry: the name as key, the thresholds as the body.
pub open spec fn enc_pentry(e: (Seq<char>, Seq<i32>)) -> Seq<char> {
    enc_str(e.0) + ":{\"thresholds\":"@ + enc_thr(e.1) + seq!['}']
}

/// One player entry.
pub open spec fn enc_plentry(e: (Seq<char>, (Seq<char>, Seq<char>))) -> Seq<char> {
    enc_str(e.0) + ":{\"name\":"@ + enc_str(e.1.0) + ",\"profile\":"@ + enc_str(e.1.1)
        + seq!['}']
}

/// The remaining entries of a table, each behind a comma.
pub open spec fn enc_pentries_tail(s: Seq<(Seq<char>, Seq<i32>)>) -> Seq<char>
    decreases s.len(),
{
    if s.len() == 0 {
        Seq::empty()
    } else {
        seq![','] + enc_pentry(s[0]) + enc_pentries_tail(s.skip(1))
    }
}

pub open spec fn enc_pentries(s: Seq<(Seq<char>, Seq<i32>)>) -> Seq<char> {
    if s.len() == 0 {
        Seq::empty()
    } else {
        enc_pentry(s[0]) + enc_pentries_tail(s.skip(1))
    }
}

pub open spec fn enc_plentries_tail(s: Seq<(Seq<char>, (Seq<char>, Seq<char>))>) -> Seq<char>
    decreases s.len(),
{
    if s.len() == 0 {
        Seq::empty()
    } else {
        seq![','] + enc_plentry(s[0]) + enc_plentries_tail(s.skip(1))
    }
}

pub open spec fn enc_plentries(s: Seq<(Seq<char>, (Seq<char>, Seq<char>))>) -> Seq<char> {
    if s.len() == 0 {
        Seq::empty()
    } else {
        enc_plentry(s[0]) + enc_plentries_tail(s.skip(1))
    }
}

/// The whole persisted document.
pub open spec fn enc_store(
    pe: Seq<(Seq<char>, Seq<i32>)>,
    ple: Seq<(Seq<char>, (Seq<char>, Seq<char>))>,
    cp: Seq<char>,
    dp: Seq<char>,
    cpl: Seq<char>,
) -> Seq<char> {
    "{\"profiles\":{"@ + enc_pentries(pe) + "},\"current_profile\":"@ + enc_str(cp)
        + ",\"default_profile\":"@ + enc_str(dp) + ",\"players\":{"@ + enc_plentries(ple)
        + "},\"current_player\":"@ + enc_str(cpl) + seq!['}']
}

fn push_hex_digit(out: &mut String, n: u32)
    requires
        n < 16,
    ensures
        final(out)@ == old(out)@ + seq![hex_digit(n as int)],
{
    if n == 0 {
        proof { reveal_strlit("0"); }
        out.append("0");
    } else if n == 1 {
        proof { reveal_strlit("1"); }
        out.append("1");
    } else if n == 2 {
        proof { reveal_strlit("2"); }
        out.append("2");
    } else if n == 3 {
        proof { reveal_strlit("3"); }
        out.append("3");
    } else if n == 4 {
        proof { reveal_strlit("4"); }
        out.append("4");
    } else if n == 5 {
        proof { reveal_strlit("5"); }
        out.append("5");
    } else if n == 6 {
        proof { reveal_strlit("6"); }
        out.append("6");
    } else if n == 7 {
        proof { reveal_strlit("7"); }
        out.append("7");
    } else if n == 8 {
        proof { reveal_strlit("8"); }
        out.append("8");
    } else if n == 9 {
        proof { reveal_strlit("9"); }
        out.append("9");
    } else if n == 10 {
        proof { reveal_strlit("a"); }
        out.append("a");
    } else if n == 11 {
        proof { reveal_strlit("b"); }
        out.append("b");
    } else if n == 12 {
        proof { reveal_strlit("c"); }
        out.append("c");
    } else if n == 13 {
        proof { reveal_strlit("d"); }
        out.append("d");
    } else if n == 14 {
        proof { reveal_strlit("e"); }
        out.append("e");
    } else {
        proof { reveal_strlit("f"); }
        out.append("f");
    }
}

/// Appends a quoted, escaped JSON string.
fn push_enc_str(out: &mut String, s: &String)
    ensures
        final(out)@ == old(out)@ + enc_str(s@),
{
    out.append("\"");
    proof {
        reveal_strlit("\"");
        assert(esc(s@.take(0)) == Seq::<char>::empty());
        assert(out@ =~= old(out)@ + seq!['"'] + esc(s@.take(0)));
    }
    let chars = str_chars(s.as_str());
    let n = chars.len();
    let mut i: usize = 0;
    while i < n
        invariant
            0 <= i <= n,
            n == chars@.len(),
            chars@ == s@,
            out@ == old(out)@ + seq!['"'] + esc(s@.take(i as int)),
        decreases n - i,
    {
        let c = chars[i];
        proof {
            lemma_esc_snoc(s@, i as int);
        }
        if c == '"' {
            out.append("\\\"");
            proof {
                reveal_strlit("\\\"");
                assert(out@ =~= old(out)@ + seq!['"'] + esc(s@.take(i as int + 1)));
            }
        } else if c == '\\' {
            out.append("\\\\");
            proof {
                reveal_strlit("\\\\");
                assert(out@ =~= old(out)@ + seq!['"'] + esc(s@.take(i as int + 1)));
            }
        } else if (c as u32) < 32 {
            out.append("\\u00");
            proof {
                reveal_strlit("\\u00");
            }
            let code = c as u32;
            push_hex_digit(out, code / 16);
            push_hex_digit(out, code % 16);
            proof {
                assert(out@ =~= old(out)@ + seq!['"'] + esc(s@.take(i as int + 1)));
            }
        } else {
            push_char(out, c);
            proof {
                assert(out@ =~= old(out)@ + seq!['"'] + esc(s@.take(i as int + 1)));
            }
        }
        i += 1;
    }
    proof {
        assert(s@.take(n as int) =~= s@);
    }
    out.append("\"");
    proof {
        assert(out@ =~= old(out)@ + enc_str(s@));
    }
}

/// Escaping one more character extends the escaped prefix.
proof fn lemma_esc_snoc(s: Seq<char>, i: int)
    requires
        0 <= i < s.len(),
    ensures
        esc(s.take(i + 1)) == esc(s.take(i)) + esc_char(s[i]),
    decreases i,
{
    if i == 0 {
        assert(s.take(1) =~= seq![s[0]]);
        assert(s.take(1).skip(1) =~= Seq::<char>::empty());
        assert(esc(Seq::<char>::empty()) == Seq::<char>::empty());
        assert(s.take(0) =~= Seq::<char>::empty());
        assert(esc(s.take(1)) == esc_char(s.take(1)[0]) + esc(s.take(1).skip(1)));
        assert(s.take(1)[0] == s[0]);
        assert(esc(s.take(1)) =~= esc_char(s[0]));
        assert(esc(s.take(0)) + esc_char(s[0]) =~= esc_char(s[0]));
    } else {
        lemma_esc_snoc(s.skip(1), i - 1);
        assert(s.take(i + 1)[0] == s[0]);
        assert(s.take(i + 1).skip(1) =~= s.skip(1).take(i));
        assert(s.take(i)[0] == s[0]);
        assert(s.take(i).skip(1) =~= s.skip(1).take(i - 1));
        assert(s.skip(1)[i - 1] == s[i]);
        assert(esc(s.take(i + 1)) == esc_char(s[0]) + esc(s.skip(1).take(i)));
        assert(esc(s.take(i)) == esc_char(s[0]) + esc(s.skip(1).take(i - 1)));
        assert(esc_char(s[0]) + (esc(s.skip(1).take(i - 1)) + esc_char(s[i])) =~= (esc_char(s[0])
            + esc(s.skip(1).take(i - 1))) + esc_char(s[i]));
    }
}

/// The characters of a string, in order.
fn str_chars(s: &str) -> (r: Vec<char>)
    ensures
        r@ == s@,
{
    broadcast use vstd::string::axiom_spec_iter;
    broadcast use vstd::string::next_postcondition;

    let mut r: Vec<char> = Vec::new();
    let mut it = s.chars();
    loop
        invariant
            s@ == r@ + it.remaining(),
        decreases s@.len() - r@.len(),
    {
        match it.next() {
            Some(c) => {
                r.push(c);
                proof {
                    assert(s@ =~= r@ + it.remaining());
                }
            },
            None => {
                proof {
                    assert(r@ =~= s@);
                }
                return r;
            },
        }
    }
}

/// Relies on `String::push`: appends exactly one character.
pub assume_specification[ String::push ](s: &mut String, c: char)
    ensures
        final(s)@ == old(s)@.push(c),
;

fn push_char(out: &mut String, c: char)
    ensures
        final(out)@ == old(out)@ + seq![c],
{
    out.push(c);
    proof {
        assert(out@ =~= old(out)@ + seq![c]);
    }
}

/// Appends an encoded threshold list.
fn push_enc_thr(out: &mut String, t: &[i32; 4])
    ensures
        final(out)@ == old(out)@ + enc_thr(t@),
{
    out.append("[");
    push_int_chars(out, t[0]);
    out.append(",");
    push_int_chars(out, t[1]);
    out.append(",");
    push_int_chars(out, t[2]);
    out.append(",");
    push_int_chars(out, t[3]);
    out.append("]");
    proof {
        reveal_strlit("[");
        reveal_strlit(",");
        reveal_strlit("]");
        assert(out@ =~= old(out)@ + enc_thr(t@));
    }
}

/// Appends one encoded profile entry.
fn push_pentry(out: &mut String, name: &String, prof: &Profile)
    ensures
        final(out)@ == old(out)@ + enc_pentry((name@, prof.thresholds@)),
{
    push_enc_str(out, name);
    out.append(":{\"thresholds\":");
    push_enc_thr(out, &prof.thresholds);
    out.append("}");
    proof {
        reveal_strlit("}");
        assert(out@ =~= old(out)@ + enc_pentry((name@, prof.thresholds@)));
    }
}

/// Appends one encoded player entry.
fn push_plentry(out: &mut String, name: &String, player: &Player)
    ensures
        final(out)@ == old(out)@ + enc_plentry((name@, player.view())),
{
    push_enc_str(out, name);
    out.append(":{\"name\":");
    push_enc_str(out, &player.name);
    out.append(",\"profile\":");
    push_enc_str(out, &player.profile);
    out.append("}");
    proof {
        reveal_strlit("}");
        assert(out@ =~= old(out)@ + enc_plentry((name@, player.view())));
    }
}

/// Writes the store as its persisted document.
pub fn encode_store(p: &Profiles) -> (r: String)
    ensures
        r@ == enc_store(
            p.profile_entries(),
            p.player_entries(),
            p.current_profile@,
            p.default_profile@,
            p.current_player@,
        ),
{
    let mut out = String::from_str("{\"profiles\":{");
    let n = p.profiles.len();
    let mut i: usize = 0;
    while i < n
        invariant
            0 <= i <= n,
            n == p.profiles@.len(),
            out@ == "{\"profiles\":{"@ + (if i == 0 {
                Seq::<char>::empty()
            } else {
                enc_pentry(p.profile_entries()[0]) + enc_pentries_tail(
                    p.profile_entries().skip(1).take(i as int - 1),
                )
            }),
        decreases n - i,
    {
        if i > 0 {
            out.append(",");
            proof {
                reveal_strlit(",");
            }
        }
        push_pentry(&mut out, &p.profiles[i].0, &p.profiles[i].1);
        proof {
            let pe = p.profile_entries();
            assert(pe[i as int] == (p.profiles@[i as int].0@, p.profiles@[i as int].1.thresholds@));
            if i == 0 {
                assert(out@ =~= "{\"profiles\":{"@ + (enc_pentry(pe[0]) + enc_pentries_tail(
                    pe.skip(1).take(0),
                )));
            } else {
                lemma_pentries_tail_snoc(pe.skip(1), i as int - 1);
                assert(pe.skip(1)[i as int - 1] == pe[i as int]);
                assert(out@ =~= "{\"profiles\":{"@ + (enc_pentry(pe[0]) + enc_pentries_tail(
                    pe.skip(1).take(i as int),
                )));
            }
        }
        i += 1;
    }
    proof {
        let pe = p.profile_entries();
        if n == 0 {
            assert(enc_pentries(pe) =~= Seq::<char>::empty());
        } else {
            assert(pe.skip(1).take(n as int - 1) =~= pe.skip(1));
        }
        assert(out@ =~= "{\"profiles\":{"@ + enc_pentries(pe));
    }
    out.append("},\"current_profile\":");
    push_enc_str(&mut out, &p.current_profile);
    out.append(",\"default_profile\":");
    push_enc_str(&mut out, &p.default_profile);
    out.append(",\"players\":{");
    let ghost head = out@;
    let m = p.players.len();
    let mut j: usize = 0;
    while j < m
        invariant
            0 <= j <= m,
            m == p.players@.len(),
            head == out_head(p),
            out@ == head + (if j == 0 {
                Seq::<char>::empty()
            } else {
                enc_plentry(p.player_entries()[0]) + enc_plentries_tail(
                    p.player_entries().skip(1).take(j as int - 1),
                )
            }),
        decreases m - j,
    {
        if j > 0 {
            out.append(",");
            proof {
                reveal_strlit(",");
            }
        }
        push_plentry(&mut out, &p.players[j].0, &p.players[j].1);
        proof {
            let ple = p.player_entries();
            assert(ple[j as int] == (p.players@[j as int].0@, p.players@[j as int].1.view()));
            if j == 0 {
                assert(out@ =~= head + (enc_plentry(ple[0]) + enc_plentries_tail(
                    ple.skip(1).take(0),
                )));
            } else {
                lemma_plentries_tail_snoc(ple.skip(1), j as int - 1);
                assert(ple.skip(1)[j as int - 1] == ple[j as int]);
                assert(out@ =~= head + (enc_plentry(ple[0]) + enc_plentries_tail(
                    ple.skip(1).take(j as int),
                )));
            }
        }
        j += 1;
    }
    proof {
        let ple = p.player_entries();
        if m == 0 {
            assert(enc_plentries(ple) =~= Seq::<char>::empty());
        } else {
            assert(ple.skip(1).take(m as int - 1) =~= ple.skip(1));
        }
        assert(out@ =~= out_head(p) + enc_plentries(ple));
    }
    out.append("},\"current_player\":");
    push_enc_str(&mut out, &p.current_player);
    out.append("}");
    proof {
        reveal_strlit("}");
        assert(out@ =~= enc_store(
            p.profile_entries(),
            p.player_entries(),
            p.current_profile@,
            p.default_profile@,
            p.current_player@,
        ));
    }
    out
}

/// Everything of the document before the player entries.
pub open spec fn out_head(p: &Profiles) -> Seq<char> {
    "{\"profiles\":{"@ + enc_pentries(p.profile_entries()) + "},\"current_profile\":"@ + enc_str(
        p.current_profile@,
    ) + ",\"default_profile\":"@ + enc_str(p.default_profile@) + ",\"players\":{"@
}

pub open spec fn is_digit_char(c: char) -> bool {
    48 <= c as u32 <= 57
}

pub open spec fn is_hex_char(c: char) -> bool {
    is_digit_char(c) || (97 <= c as u32 <= 102)
}

pub open spec fn hex_val(c: char) -> int {
    if c as u32 <= 57 {
        c as u32 - 48
    } else {
        c as u32 - 87
    }
}

/// The literal stands at position `i`.
pub open spec fn lit_at(s: Seq<char>, i: int, lit: Seq<char>) -> bool {
    0 <= i && i + lit.len() <= s.len() && s.subrange(i, i + lit.len()) == lit
}

/// Reads a JSON string body from just after its opening quote to its
/// closing quote, unescaping as the encoder escapes.
pub open spec fn scan_str(s: Seq<char>, i: int, acc: Seq<char>) -> Option<(Seq<char>, int)>
    decreases s.len() - i,
{
    if i < 0 || i >= s.len() {
        None
    } else if s[i] == '"' {
        Some((acc, i + 1))
    } else if s[i] == '\\' {
        if i + 1 < s.len() && (s[i + 1] == '"' || s[i + 1] == '\\') {
            scan_str(s, i + 2, acc.push(s[i + 1]))
        } else if i + 5 < s.len() && s[i + 1] == 'u' && s[i + 2] == '0' && s[i + 3] == '0'
            && is_hex_char(s[i + 4]) && is_hex_char(s[i + 5]) && hex_val(s[i + 4]) * 16 + hex_val(
            s[i + 5],
        ) < 32 {
            scan_str(
                s,
                i + 6,
                acc.push((((hex_val(s[i + 4]) * 16 + hex_val(s[i + 5])) as u8) as char)),
            )
        } else {
            None
        }
    } else {
        scan_str(s, i + 1, acc.push(s[i]))
    }
}

/// Reads a digit run, most significant first.
pub open spec fn scan_digits(s: Seq<char>, i: int, acc: int) -> (int, int)
    decreases s.len() - i,
{
    if 0 <= i < s.len() && is_digit_char(s[i]) {
        scan_digits(s, i + 1, acc * 10 + (s[i] as u32 - 48))
    } else {
        (acc, i)
    }
}

/// Reads one signed decimal number within the `i32` range.
pub open spec fn scan_i32(s: Seq<char>, i: int) -> Option<(i32, int)> {
    if 0 <= i < s.len() && (s[i] == '-' || is_digit_char(s[i])) {
        let neg = s[i] == '-';
        let j = if neg {
            i + 1
        } else {
            i
        };
        if j < s.len() && is_digit_char(s[j]) {
            let vk = scan_digits(s, j, 0);
            let sv = if neg {
                -vk.0
            } else {
                vk.0
            };
            if i32::MIN <= sv <= i32::MAX {
                Some((sv as i32, vk.1))
            } else {
                None
            }
        } else {
            None
        }
    } else {
        None
    }
}

/// Reads a threshold list.
pub open spec fn sp_thr(s: Seq<char>, i: int) -> Option<(Seq<i32>, int)> {
    if !lit_at(s, i, seq!['[']) {
        None
    } else {
        match scan_i32(s, i + 1) {
            None => None,
            Some((v0, p1)) => if !lit_at(s, p1, seq![',']) {
                None
            } else {
                match scan_i32(s, p1 + 1) {
                    None => None,
                    Some((v1, p2)) => if !lit_at(s, p2, seq![',']) {
                        None
                    } else {
                        match scan_i32(s, p2 + 1) {
                            None => None,
                            Some((v2, p3)) => if !lit_at(s, p3, seq![',']) {
                                None
                            } else {
                                match scan_i32(s, p3 + 1) {
                                    None => None,
                                    Some((v3, p4)) => if !lit_at(s, p4, seq![']']) {
                                        None
                                    } else {
                                        Some((seq![v0, v1, v2, v3], p4 + 1))
                                    },
                                }
                            },
                        }
                    },
                }
            },
        }
    }
}

/// Reads one profile entry.
pub open spec fn sp_pentry(s: Seq<char>, i: int) -> Option<((Seq<char>, Seq<i32>), int)> {
    if !lit_at(s, i, seq!['"']) {
        None
    } else {
        match scan_str(s, i + 1, Seq::empty()) {
            None => None,
            Some((name, p1)) => if !lit_at(s, p1, ":{\"thresholds\":"@) {
                None
            } else {
                match sp_thr(s, p1 + ":{\"thresholds\":"@.len()) {
                    None => None,
                    Some((thr, p2)) => if !lit_at(s, p2, seq!['}']) {
                        None
                    } else {
                        Some(((name, thr), p2 + 1))
                    },
                }
            },
        }
    }
}

/// Reads one player entry.
pub open spec fn sp_plentry(s: Seq<char>, i: int) -> Option<
    ((Seq<char>, (Seq<char>, Seq<char>)), int),
> {
    if !lit_at(s, i, seq!['"']) {
        None
    } else {
        match scan_str(s, i + 1, Seq::empty()) {
            None => None,
            Some((key, p1)) => if !lit_at(s, p1, ":{\"name\":\""@) {
                None
            } else {
                match scan_str(s, p1 + ":{\"name\":\""@.len(), Seq::empty()) {
                    None => None,
                    Some((name, p2)) => if !lit_at(s, p2, ",\"profile\":\""@) {
                        None
                    } else {
                        match scan_str(s, p2 + ",\"profile\":\""@.len(), Seq::empty()) {
                            None => None,
                            Some((prof, p3)) => if !lit_at(s, p3, seq!['}']) {
                                None
                            } else {
                                Some(((key, (name, prof)), p3 + 1))
                            },
                        }
                    },
                }
            },
        }
    }
}

pub proof fn lemma_scan_str_bounds(s: Seq<char>, i: int, acc: Seq<char>)
    ensures
        scan_str(s, i, acc) matches Some(r) ==> i < r.1 <= s.len(),
    decreases s.len() - i,
{
    if 0 <= i < s.len() {
        if s[i] == '"' {
        } else if s[i] == '\\' {
            if i + 1 < s.len() && (s[i + 1] == '"' || s[i + 1] == '\\') {
                lemma_scan_str_bounds(s, i + 2, acc.push(s[i + 1]));
            } else if i + 5 < s.len() && s[i + 1] == 'u' && s[i + 2] == '0' && s[i + 3] == '0'
                && is_hex_char(s[i + 4]) && is_hex_char(s[i + 5]) && hex_val(s[i + 4]) * 16
                + hex_val(s[i + 5]) < 32 {
                lemma_scan_str_bounds(
                    s,
                    i + 6,
                    acc.push((((hex_val(s[i + 4]) * 16 + hex_val(s[i + 5])) as u8) as char)),
                );
            }
        } else {
            lemma_scan_str_bounds(s, i + 1, acc.push(s[i]));
        }
    }
}

pub proof fn lemma_scan_digits_bounds(s: Seq<char>, i: int, acc: int)
    requires
        0 <= i,
    ensures
        i <= scan_digits(s, i, acc).1,
        scan_digits(s, i, acc).1 <= s.len() || scan_digits(s, i, acc).1 == i,
    decreases s.len() - i,
{
    if 0 <= i < s.len() && is_digit_char(s[i]) {
        lemma_scan_digits_bounds(s, i + 1, acc * 10 + (s[i] as u32 - 48));
    }
}

pub proof fn lemma_sp_pentry_bounds(s: Seq<char>, i: int)
    ensures
        sp_pentry(s, i) matches Some(r) ==> i < r.1 <= s.len(),
{
    if lit_at(s, i, seq!['"']) {
        lemma_scan_str_bounds(s, i + 1, Seq::empty());
        match scan_str(s, i + 1, Seq::empty()) {
            Some((name, p1)) => {
                if lit_at(s, p1, ":{\"thresholds\":"@) {
                    let q = p1 + ":{\"thresholds\":"@.len();
                    lemma_sp_thr_bounds(s, q);
                }
            },
            None => {},
        }
    }
}

pub proof fn lemma_sp_thr_bounds(s: Seq<char>, i: int)
    ensures
        sp_thr(s, i) matches Some(r) ==> i < r.1 <= s.len(),
{
    if lit_at(s, i, seq!['[']) {
        lemma_scan_i32_bounds(s, i + 1);
        match scan_i32(s, i + 1) {
            Some((v0, p1)) => {
                if lit_at(s, p1, seq![',']) {
                    lemma_scan_i32_bounds(s, p1 + 1);
                    match scan_i32(s, p1 + 1) {
                        Some((v1, p2)) => {
                            if lit_at(s, p2, seq![',']) {
                                lemma_scan_i32_bounds(s, p2 + 1);
                                match scan_i32(s, p2 + 1) {
                                    Some((v2, p3)) => {
                                        if lit_at(s, p3, seq![',']) {
                                            lemma_scan_i32_bounds(s, p3 + 1);
                                        }
                                    },
                                    None => {},
                                }
                            }
                        },
                        None => {},
                    }
                }
            },
            None => {},
        }
    }
}

pub proof fn lemma_scan_i32_bounds(s: Seq<char>, i: int)
    ensures
        scan_i32(s, i) matches Some(r) ==> i < r.1 <= s.len(),
{
    if 0 <= i < s.len() && (s[i] == '-' || is_digit_char(s[i])) {
        let neg = s[i] == '-';
        let j = if neg {
            i + 1
        } else {
            i
        };
        if j < s.len() && is_digit_char(s[j]) {
            lemma_scan_digits_bounds(s, j + 1, s[j] as u32 - 48);
        }
    }
}

pub proof fn lemma_sp_plentry_bounds(s: Seq<char>, i: int)
    ensures
        sp_plentry(s, i) matches Some(r) ==> i < r.1 <= s.len(),
{
    if lit_at(s, i, seq!['"']) {
        lemma_scan_str_bounds(s, i + 1, Seq::empty());
        match scan_str(s, i + 1, Seq::empty()) {
            Some((key, p1)) => {
                if lit_at(s, p1, ":{\"name\":\""@) {
                    lemma_scan_str_bounds(s, p1 + ":{\"name\":\""@.len(), Seq::empty());
                    match scan_str(s, p1 + ":{\"name\":\""@.len(), Seq::empty()) {
                        Some((name, p2)) => {
                            if lit_at(s, p2, ",\"profile\":\""@) {
                                lemma_scan_str_bounds(
                                    s,
                                    p2 + ",\"profile\":\""@.len(),
                                    Seq::empty(),
                                );
                            }
                        },
                        None => {},
                    }
                }
            },
            None => {},
        }
    }
}

/// Reads the rest of a profile table, one comma-led entry at a time.
pub open spec fn sp_pentries_more(
    s: Seq<char>,
    i: int,
    acc: Seq<(Seq<char>, Seq<i32>)>,
) -> Option<(Seq<(Seq<char>, Seq<i32>)>, int)>
    decreases s.len() - i,
    when 0 <= i
    via sp_pentries_more_decreases
{
    if i >= s.len() {
        None
    } else if s[i] == '}' {
        Some((acc, i + 1))
    } else if s[i] == ',' {
        match sp_pentry(s, i + 1) {
            None => None,
            Some((e, p)) => sp_pentries_more(s, p, acc.push(e)),
        }
    } else {
        None
    }
}

#[via_fn]
proof fn sp_pentries_more_decreases(s: Seq<char>, i: int, acc: Seq<(Seq<char>, Seq<i32>)>) {
    lemma_sp_pentry_bounds(s, i + 1);
}

/// Reads a profile table from just after its opening brace.
pub open spec fn sp_pentries(s: Seq<char>, i: int) -> Option<(Seq<(Seq<char>, Seq<i32>)>, int)> {
    if i < 0 || i >= s.len() {
        None
    } else if s[i] == '}' {
        Some((Seq::empty(), i + 1))
    } else {
        match sp_pentry(s, i) {
            None => None,
            Some((e, p)) => sp_pentries_more(s, p, seq![e]),
        }
    }
}

/// Reads the rest of a player table.
pub open spec fn sp_plentries_more(
    s: Seq<char>,
    i: int,
    acc: Seq<(Seq<char>, (Seq<char>, Seq<char>))>,
) -> Option<(Seq<(Seq<char>, (Seq<char>, Seq<char>))>, int)>
    decreases s.len() - i,
    when 0 <= i
    via sp_plentries_more_decreases
{
    if i >= s.len() {
        None
    } else if s[i] == '}' {
        Some((acc, i + 1))
    } else if s[i] == ',' {
        match sp_plentry(s, i + 1) {
            None => None,
            Some((e, p)) => sp_plentries_more(s, p, acc.push(e)),
        }
    } else {
        None
    }
}

#[via_fn]
proof fn sp_plentries_more_decreases(
    s: Seq<char>,
    i: int,
    acc: Seq<(Seq<char>, (Seq<char>, Seq<char>))>,
) {
    lemma_sp_plentry_bounds(s, i + 1);
}

/// Reads a player table from just after its opening brace.
pub open spec fn sp_plentries(s: Seq<char>, i: int) -> Option<
    (Seq<(Seq<char>, (Seq<char>, Seq<char>))>, int),
> {
    if i < 0 || i >= s.len() {
        None
    } else if s[i] == '}' {
        Some((Seq::empty(), i + 1))
    } else {
        match sp_plentry(s, i) {
            None => None,
            Some((e, p)) => sp_plentries_more(s, p, seq![e]),
        }
    }
}

/// What one persisted document holds.
pub struct StoreDoc {
    pub pe: Seq<(Seq<char>, Seq<i32>)>,
    pub ple: Seq<(Seq<char>, (Seq<char>, Seq<char>))>,
    pub cp: Seq<char>,
    pub dp: Seq<char>,
    pub cpl: Seq<char>,
}

/// Reads a whole persisted document; the document must end with it.
pub open spec fn sp_store(s: Seq<char>) -> Option<StoreDoc> {
    if !lit_at(s, 0, "{\"profiles\":{"@) {
        None
    } else {
        match sp_pentries(s, "{\"profiles\":{"@.len() as int) {
            None => None,
            Some((pe, p1)) => if !lit_at(s, p1 - 1, "},\"current_profile\":\""@) {
                None
            } else {
                match scan_str(s, p1 - 1 + "},\"current_profile\":\""@.len(), Seq::empty()) {
                    None => None,
                    Some((cp, p2)) => if !lit_at(s, p2, ",\"default_profile\":\""@) {
                        None
                    } else {
                        match scan_str(s, p2 + ",\"default_profile\":\""@.len(), Seq::empty()) {
                            None => None,
                            Some((dp, p3)) => if !lit_at(s, p3, ",\"players\":{"@) {
                                None
                            } else {
                                match sp_plentries(s, p3 + ",\"players\":{"@.len()) {
                                    None => None,
                                    Some((ple, p4)) => if !lit_at(
                                        s,
                                        p4 - 1,
                                        "},\"current_player\":\""@,
                                    ) {
                                        None
                                    } else {
                                        match scan_str(
                                            s,
                                            p4 - 1 + "},\"current_player\":\""@.len(),
                                            Seq::empty(),
                                        ) {
                                            None => None,
                                            Some((cpl, p5)) => if p5 + 1 == s.len() && lit_at(
                                                s,
                                                p5,
                                                seq!['}'],
                                            ) {
                                                Some(StoreDoc { pe, ple, cp, dp, cpl })
                                            } else {
                                                None
                                            },
                                        }
                                    },
                                }
                            },
                        }
                    },
                }
            },
        }
    }
}

/// Checks that the literal stands at `i` and steps past it.
fn expect_lit(buf: &Vec<char>, i: usize, lit: &str) -> (r: Option<usize>)
    ensures
        match r {
            Some(p) => lit_at(buf@, i as int, lit@) && p == i + lit@.len(),
            None => !lit_at(buf@, i as int, lit@),
        },
{
    let lc = str_chars(lit);
    let m = lc.len();
    let blen = buf.len();
    if i > blen || m > blen - i {
        return None;
    }
    let mut k: usize = 0;
    while k < m
        invariant
            0 <= k <= m,
            m == lc@.len(),
            lc@ == lit@,
            blen == buf@.len(),
            i + m <= blen,
            forall|j: int| 0 <= j < k ==> buf@[i + j] == lit@[j],
        decreases m - k,
    {
        if buf[i + k] != lc[k] {
            proof {
                if lit_at(buf@, i as int, lit@) {
                    assert(buf@.subrange(i as int, i as int + lit@.len())[k as int] == buf@[i + k]);
                }
            }
            return None;
        }
        k += 1;
    }
    proof {
        assert(buf@.subrange(i as int, i as int + lit@.len()) =~= lit@);
    }
    Some(i + m)
}

fn is_hex_exec(c: char) -> (r: bool)
    ensures
        r == is_hex_char(c),
{
    let u = c as u32;
    (48 <= u && u <= 57) || (97 <= u && u <= 102)
}

fn hex_val_exec(c: char) -> (r: u32)
    requires
        is_hex_char(c),
    ensures
        r as int == hex_val(c),
        r < 16,
{
    let u = c as u32;
    if u <= 57 {
        u - 48
    } else {
        u - 87
    }
}

/// Reads a string body from after its opening quote, exactly as
/// `scan_str` says.
fn scan_str_exec(buf: &Vec<char>, start: usize) -> (r: Option<(String, usize)>)
    ensures
        match r {
            Some(t) => scan_str(buf@, start as int, Seq::empty()) == Some((t.0@, t.1 as int))
                && t.1 <= buf@.len(),
            None => scan_str(buf@, start as int, Seq::empty()) is None,
        },
{
    let n = buf.len();
    let mut acc = String::new();
    let mut i = start;
    loop
        invariant
            start <= i,
            n == buf@.len(),
            scan_str(buf@, start as int, Seq::empty()) == scan_str(buf@, i as int, acc@),
        decreases n - i,
    {
        if i >= n {
            return None;
        }
        let c = buf[i];
        if c == '"' {
            return Some((acc, i + 1));
        }
        if c == '\\' {
            if n - i > 1 {
                let d = buf[i + 1];
                if d == '"' || d == '\\' {
                    acc.push(d);
                    i += 2;
                    continue;
                }
            }
            if n - i > 5 {
                let u = buf[i + 1];
                let z1 = buf[i + 2];
                let z2 = buf[i + 3];
                let h1 = buf[i + 4];
                let h2 = buf[i + 5];
                if u == 'u' && z1 == '0' && z2 == '0' && is_hex_exec(h1) && is_hex_exec(h2) {
                    let v = hex_val_exec(h1) * 16 + hex_val_exec(h2);
                    if v < 32 {
                        acc.push((v as u8) as char);
                        i += 6;
                        continue;
                    }
                }
            }
            return None;
        }
        acc.push(c);
        i += 1;
    }
}

/// Reads one signed decimal, exactly as `scan_i32` says.
fn scan_i32_exec(buf: &Vec<char>, start: usize) -> (r: Option<(i32, usize)>)
    ensures
        match r {
            Some(t) => scan_i32(buf@, start as int) == Some((t.0, t.1 as int)) && t.1
                <= buf@.len(),
            None => scan_i32(buf@, start as int) is None,
        },
{
    let n = buf.len();
    if start >= n {
        return None;
    }
    let c0 = buf[start];
    let neg = c0 == '-';
    if !(neg || (c0 as u32 >= 48 && c0 as u32 <= 57)) {
        return None;
    }
    let j0 = if neg {
        start + 1
    } else {
        start
    };
    if j0 >= n {
        return None;
    }
    let d0 = buf[j0];
    if !(d0 as u32 >= 48 && d0 as u32 <= 57) {
        return None;
    }
    let mut i = j0;
    let mut acc: u128 = 0;
    let ghost mut sacc: int = 0;
    while i < n
        invariant
            j0 <= i <= n,
            n == buf@.len(),
            scan_digits(buf@, j0 as int, 0) == scan_digits(buf@, i as int, sacc),
            0 <= sacc,
            if sacc <= 0x1_0000_0000_0000_0000 {
                acc == sacc
            } else {
                acc == 0x1_0000_0000_0000_0000u128
            },
            acc <= 0x1_0000_0000_0000_0000u128,
            acc <= sacc,
        ensures
            j0 <= i <= n,
            n == buf@.len(),
            i == n || !is_digit_char(buf@[i as int]),
            scan_digits(buf@, j0 as int, 0) == scan_digits(buf@, i as int, sacc),
            0 <= sacc,
            if sacc <= 0x1_0000_0000_0000_0000 {
                acc == sacc
            } else {
                acc == 0x1_0000_0000_0000_0000u128
            },
            acc <= sacc,
        decreases n - i,
    {
        let c = buf[i];
        if !(c as u32 >= 48 && c as u32 <= 57) {
            break;
        }
        proof {
            assert(is_digit_char(buf@[i as int]));
            sacc = sacc * 10 + (c as u32 - 48);
        }
        let next = acc * 10 + ((c as u32 - 48) as u128);
        acc = if next > 0x1_0000_0000_0000_0000u128 {
            0x1_0000_0000_0000_0000u128
        } else {
            next
        };
        i += 1;
    }
    proof {
        assert(scan_digits(buf@, i as int, sacc) == (sacc, i as int));
    }
    if neg {
        if acc <= 0x8000_0000u128 {
            Some(((-(acc as i64)) as i32, i))
        } else {
            None
        }
    } else {
        if acc <= 0x7fff_ffffu128 {
            Some((acc as i32, i))
        } else {
            None
        }
    }
}

/// Reads a threshold list, exactly as `sp_thr` says.
fn sp_thr_exec(buf: &Vec<char>, start: usize) -> (r: Option<([i32; 4], usize)>)
    ensures
        match r {
            Some(t) => sp_thr(buf@, start as int) == Some((t.0@, t.1 as int)) && t.1
                <= buf@.len(),
            None => sp_thr(buf@, start as int) is None,
        },
{
    let n = buf.len();
    if !(start < n && buf[start] == '[') {
        proof {
            if lit_at(buf@, start as int, seq!['[']) {
                assert(buf@.subrange(start as int, start as int + 1)[0] == buf@[start as int]);
            }
        }
        return None;
    }
    proof {
        assert(buf@.subrange(start as int, start as int + 1) =~= seq!['[']);
    }
    let (v0, p1) = match scan_i32_exec(buf, start + 1) {
        Some(t) => t,
        None => {
            return None;
        },
    };
    if !(p1 < n && buf[p1] == ',') {
        proof {
            if lit_at(buf@, p1 as int, seq![',']) {
                assert(buf@.subrange(p1 as int, p1 as int + 1)[0] == buf@[p1 as int]);
            }
        }
        return None;
    }
    proof {
        assert(buf@.subrange(p1 as int, p1 as int + 1) =~= seq![',']);
    }
    let (v1, p2) = match scan_i32_exec(buf, p1 + 1) {
        Some(t) => t,
        None => {
            return None;
        },
    };
    if !(p2 < n && buf[p2] == ',') {
        proof {
            if lit_at(buf@, p2 as int, seq![',']) {
                assert(buf@.subrange(p2 as int, p2 as int + 1)[0] == buf@[p2 as int]);
            }
        }
        return None;
    }
    proof {
        assert(buf@.subrange(p2 as int, p2 as int + 1) =~= seq![',']);
    }
    let (v2, p3) = match scan_i32_exec(buf, p2 + 1) {
        Some(t) => t,
        None => {
            return None;
        },
    };
    if !(p3 < n && buf[p3] == ',') {
        proof {
            if lit_at(buf@, p3 as int, seq![',']) {
                assert(buf@.subrange(p3 as int, p3 as int + 1)[0] == buf@[p3 as int]);
            }
        }
        return None;
    }
    proof {
        assert(buf@.subrange(p3 as int, p3 as int + 1) =~= seq![',']);
    }
    let (v3, p4) = match scan_i32_exec(buf, p3 + 1) {
        Some(t) => t,
        None => {
            return None;
        },
    };
    if !(p4 < n && buf[p4] == ']') {
        proof {
            if lit_at(buf@, p4 as int, seq![']']) {
                assert(buf@.subrange(p4 as int, p4 as int + 1)[0] == buf@[p4 as int]);
            }
        }
        return None;
    }
    proof {
        assert(buf@.subrange(p4 as int, p4 as int + 1) =~= seq![']']);
    }
    let out = [v0, v1, v2, v3];
    proof {
        assert(out@ =~= seq![v0, v1, v2, v3]);
    }
    Some((out, p4 + 1))
}

/// Reads one profile entry, exactly as `sp_pentry` says.
fn sp_pentry_exec(buf: &Vec<char>, start: usize) -> (r: Option<((String, [i32; 4]), usize)>)
    ensures
        match r {
            Some(t) => sp_pentry(buf@, start as int) == Some(((t.0.0@, t.0.1@), t.1 as int))
                && t.1 <= buf@.len(),
            None => sp_pentry(buf@, start as int) is None,
        },
{
    let n = buf.len();
    if !(start < n && buf[start] == '"') {
        proof {
            if lit_at(buf@, start as int, seq!['"']) {
                assert(buf@.subrange(start as int, start as int + 1)[0] == buf@[start as int]);
            }
        }
        return None;
    }
    proof {
        assert(buf@.subrange(start as int, start as int + 1) =~= seq!['"']);
    }
    let (name, p1) = match scan_str_exec(buf, start + 1) {
        Some(t) => t,
        None => {
            return None;
        },
    };
    let p1b = match expect_lit(buf, p1, ":{\"thresholds\":") {
        Some(p) => p,
        None => {
            return None;
        },
    };
    let (thr, p2) = match sp_thr_exec(buf, p1b) {
        Some(t) => t,
        None => {
            return None;
        },
    };
    if !(p2 < n && buf[p2] == '}') {
        proof {
            if lit_at(buf@, p2 as int, seq!['}']) {
                assert(buf@.subrange(p2 as int, p2 as int + 1)[0] == buf@[p2 as int]);
            }
        }
        return None;
    }
    proof {
        assert(buf@.subrange(p2 as int, p2 as int + 1) =~= seq!['}']);
    }
    Some(((name, thr), p2 + 1))
}

/// Reads one player entry, exactly as `sp_plentry` says.
fn sp_plentry_exec(buf: &Vec<char>, start: usize) -> (r: Option<
    ((String, (String, String)), usize),
>)
    ensures
        match r {
            Some(t) => sp_plentry(buf@, start as int) == Some(
                ((t.0.0@, (t.0.1.0@, t.0.1.1@)), t.1 as int),
            ) && t.1 <= buf@.len(),
            None => sp_plentry(buf@, start as int) is None,
        },
{
    let n = buf.len();
    if !(start < n && buf[start] == '"') {
        proof {
            if lit_at(buf@, start as int, seq!['"']) {
                assert(buf@.subrange(start as int, start as int + 1)[0] == buf@[start as int]);
            }
        }
        return None;
    }
    proof {
        assert(buf@.subrange(start as int, start as int + 1) =~= seq!['"']);
    }
    let (key, p1) = match scan_str_exec(buf, start + 1) {
        Some(t) => t,
        None => {
            return None;
        },
    };
    let p1b = match expect_lit(buf, p1, ":{\"name\":\"") {
        Some(p) => p,
        None => {
            return None;
        },
    };
    let (name, p2) = match scan_str_exec(buf, p1b) {
        Some(t) => t,
        None => {
            return None;
        },
    };
    let p2b = match expect_lit(buf, p2, ",\"profile\":\"") {
        Some(p) => p,
        None => {
            return None;
        },
    };
    let (prof, p3) = match scan_str_exec(buf, p2b) {
        Some(t) => t,
        None => {
            return None;
        },
    };
    if !(p3 < n && buf[p3] == '}') {
        proof {
            if lit_at(buf@, p3 as int, seq!['}']) {
                assert(buf@.subrange(p3 as int, p3 as int + 1)[0] == buf@[p3 as int]);
            }
        }
        return None;
    }
    proof {
        assert(buf@.subrange(p3 as int, p3 as int + 1) =~= seq!['}']);
    }
    Some(((key, (name, prof)), p3 + 1))
}

/// The profile entries a parsed list stands for.
pub open spec fn pentries_view(v: Seq<(String, [i32; 4])>) -> Seq<(Seq<char>, Seq<i32>)> {
    v.map_values(|e: (String, [i32; 4])| (e.0@, e.1@))
}

/// The player entries a parsed list stands for.
pub open spec fn plentries_view(v: Seq<(String, (String, String))>) -> Seq<
    (Seq<char>, (Seq<char>, Seq<char>)),
> {
    v.map_values(|e: (String, (String, String))| (e.0@, (e.1.0@, e.1.1@)))
}

/// Reads a profile table, exactly as `sp_pentries` says.
fn sp_pentries_exec(buf: &Vec<char>, tstart: usize) -> (r: Option<
    (Vec<(String, [i32; 4])>, usize),
>)
    ensures
        match r {
            Some(t) => sp_pentries(buf@, tstart as int) == Some(
                (pentries_view(t.0@), t.1 as int),
            ) && t.1 <= buf@.len(),
            None => sp_pentries(buf@, tstart as int) is None,
        },
{
    let n = buf.len();
    if tstart >= n {
        return None;
    }
    if buf[tstart] == '}' {
        let out: Vec<(String, [i32; 4])> = Vec::new();
        proof {
            assert(pentries_view(out@) =~= Seq::<(Seq<char>, Seq<i32>)>::empty());
        }
        return Some((out, tstart + 1));
    }
    let (e0, p0) = match sp_pentry_exec(buf, tstart) {
        Some(t) => t,
        None => {
            return None;
        },
    };
    let mut out: Vec<(String, [i32; 4])> = Vec::new();
    out.push(e0);
    proof {
        assert(pentries_view(out@) =~= seq![(e0.0@, e0.1@)]);
    }
    let mut i = p0;
    loop
        invariant
            i <= n,
            n == buf@.len(),
            sp_pentries(buf@, tstart as int) == sp_pentries_more(
                buf@,
                i as int,
                pentries_view(out@),
            ),
        decreases n - i,
    {
        if i >= n {
            return None;
        }
        let c = buf[i];
        if c == '}' {
            return Some((out, i + 1));
        }
        if c != ',' {
            return None;
        }
        match sp_pentry_exec(buf, i + 1) {
            Some((e, p)) => {
                proof {
                    lemma_sp_pentry_bounds(buf@, i as int + 1);
                    assert(pentries_view(out@.push(e)) =~= pentries_view(out@).push(
                        (e.0@, e.1@),
                    ));
                }
                out.push(e);
                i = p;
            },
            None => {
                return None;
            },
        }
    }
}

/// Reads a player table, exactly as `sp_plentries` says.
fn sp_plentries_exec(buf: &Vec<char>, tstart: usize) -> (r: Option<
    (Vec<(String, (String, String))>, usize),
>)
    ensures
        match r {
            Some(t) => sp_plentries(buf@, tstart as int) == Some(
                (plentries_view(t.0@), t.1 as int),
            ) && t.1 <= buf@.len(),
            None => sp_plentries(buf@, tstart as int) is None,
        },
{
    let n = buf.len();
    if tstart >= n {
        return None;
    }
    if buf[tstart] == '}' {
        let out: Vec<(String, (String, String))> = Vec::new();
        proof {
            assert(plentries_view(out@) =~= Seq::<(Seq<char>, (Seq<char>, Seq<char>))>::empty());
        }
        return Some((out, tstart + 1));
    }
    let (e0, p0) = match sp_plentry_exec(buf, tstart) {
        Some(t) => t,
        None => {
            return None;
        },
    };
    let mut out: Vec<(String, (String, String))> = Vec::new();
    out.push(e0);
    proof {
        assert(plentries_view(out@) =~= seq![(e0.0@, (e0.1.0@, e0.1.1@))]);
    }
    let mut i = p0;
    loop
        invariant
            i <= n,
            n == buf@.len(),
            sp_plentries(buf@, tstart as int) == sp_plentries_more(
                buf@,
                i as int,
                plentries_view(out@),
            ),
        decreases n - i,
    {
        if i >= n {
            return None;
        }
        let c = buf[i];
        if c == '}' {
            return Some((out, i + 1));
        }
        if c != ',' {
            return None;
        }
        match sp_plentry_exec(buf, i + 1) {
            Some((e, p)) => {
                proof {
                    lemma_sp_plentry_bounds(buf@, i as int + 1);
                    assert(plentries_view(out@.push(e)) =~= plentries_view(out@).push(
                        (e.0@, (e.1.0@, e.1.1@)),
                    ));
                }
                out.push(e);
                i = p;
            },
            None => {
                return None;
            },
        }
    }
}

/// Reads a persisted document back into a store. What was written by
/// `encode_store` is accepted and gives the same store back; a document
/// this module would not write, or one holding a name twice, may be
/// refused, and the caller starts from an empty store.
pub fn decode_store(text: &str) -> (r: Option<Profiles>)
    ensures
        match r {
            Some(p) => {
                &&& p.wf()
                &&& sp_store(text@) matches Some(doc) && p.profile_entries() == doc.pe
                    && p.player_entries() == doc.ple && p.current_profile@ == doc.cp
                    && p.default_profile@ == doc.dp && p.current_player@ == doc.cpl
            },
            None => match sp_store(text@) {
                Some(doc) => !crate::amap::keys_unique(doc.pe) || !crate::amap::keys_unique(
                    doc.ple,
                ),
                None => true,
            },
        },
{
    let buf = str_chars(text);
    let p0 = match expect_lit(&buf, 0, "{\"profiles\":{") {
        Some(p) => p,
        None => {
            return None;
        },
    };
    let (pentries, p1) = match sp_pentries_exec(&buf, p0) {
        Some(t) => t,
        None => {
            return None;
        },
    };
    proof {
        lemma_sp_pentries_bounds(buf@, p0 as int);
    }
    let p1b = match expect_lit(&buf, p1 - 1, "},\"current_profile\":\"") {
        Some(p) => p,
        None => {
            return None;
        },
    };
    let (cp, p2) = match scan_str_exec(&buf, p1b) {
        Some(t) => t,
        None => {
            return None;
        },
    };
    let p2b = match expect_lit(&buf, p2, ",\"default_profile\":\"") {
        Some(p) => p,
        None => {
            return None;
        },
    };
    let (dp, p3) = match scan_str_exec(&buf, p2b) {
        Some(t) => t,
        None => {
            return None;
        },
    };
    let p3b = match expect_lit(&buf, p3, ",\"players\":{") {
        Some(p) => p,
        None => {
            return None;
        },
    };
    let (plentries, p4) = match sp_plentries_exec(&buf, p3b) {
        Some(t) => t,
        None => {
            return None;
        },
    };
    proof {
        lemma_sp_plentries_bounds(buf@, p3b as int);
    }
    let p4b = match expect_lit(&buf, p4 - 1, "},\"current_player\":\"") {
        Some(p) => p,
        None => {
            return None;
        },
    };
    let (cpl, p5) = match scan_str_exec(&buf, p4b) {
        Some(t) => t,
        None => {
            return None;
        },
    };
    if !(p5 < buf.len() && buf[p5] == '}' && p5 + 1 == buf.len()) {
        proof {
            if lit_at(buf@, p5 as int, seq!['}']) && p5 as int + 1 == buf@.len() {
                assert(buf@.subrange(p5 as int, p5 as int + 1)[0] == buf@[p5 as int]);
            }
        }
        return None;
    }
    proof {
        assert(buf@.subrange(p5 as int, p5 as int + 1) =~= seq!['}']);
    }
    proof {
        assert(sp_store(text@) matches Some(d) && d.pe == pentries_view(pentries@) && d.ple
            == plentries_view(plentries@) && d.cp == cp@ && d.dp == dp@ && d.cpl == cpl@);
    }
    let mut store = Profiles::new();
    let np = pentries.len();
    let mut i: usize = 0;
    while i < np
        invariant
            0 <= i <= np,
            np == pentries@.len(),
            match sp_store(text@) {
                Some(doc) => doc.pe == pentries_view(pentries@) && doc.ple == plentries_view(
                    plentries@,
                ),
                None => false,
            },
            store.wf(),
            store.profile_entries() == pentries_view(pentries@).take(i as int),
            store.player_entries() == Seq::<(Seq<char>, (Seq<char>, Seq<char>))>::empty(),
            store.current_profile@ == Seq::<char>::empty(),
            store.default_profile@ == Seq::<char>::empty(),
            store.current_player@ == Seq::<char>::empty(),
        decreases np - i,
    {
        let name = &pentries[i].0;
        if store.has_profile(name) {
            proof {
                let s0 = store.profile_entries();
                crate::amap::lemma_amap_contains(s0, name@);
                let pv = pentries_view(pentries@);
                let j = choose|j: int| 0 <= j < s0.len() && (#[trigger] s0[j]).0 == name@;
                assert(s0[j] == pv.take(i as int)[j]);
                assert(pv.take(i as int)[j] == pv[j]);
                assert(pv[i as int].0 == name@);
                assert(pv[j].0 == pv[i as int].0);
                assert(!crate::amap::keys_unique(pv)) by {
                    if crate::amap::keys_unique(pv) {
                        assert(pv[j].0 != pv[i as int].0);
                    }
                }
            }
            return None;
        }
        store.add_profile(name, pentries[i].1);
        proof {
            assert(store.profile_entries() =~= pentries_view(pentries@).take(i as int + 1));
        }
        i += 1;
    }
    proof {
        assert(pentries_view(pentries@).take(np as int) =~= pentries_view(pentries@));
    }
    let nl = plentries.len();
    let mut j: usize = 0;
    while j < nl
        invariant
            0 <= j <= nl,
            nl == plentries@.len(),
            match sp_store(text@) {
                Some(doc) => doc.pe == pentries_view(pentries@) && doc.ple == plentries_view(
                    plentries@,
                ),
                None => false,
            },
            store.wf(),
            store.profile_entries() == pentries_view(pentries@),
            store.player_entries() == plentries_view(plentries@).take(j as int),
            store.current_profile@ == Seq::<char>::empty(),
            store.default_profile@ == Seq::<char>::empty(),
            store.current_player@ == Seq::<char>::empty(),
        decreases nl - j,
    {
        let key = &plentries[j].0;
        if store.has_player(key) {
            proof {
                let s0 = store.player_entries();
                crate::amap::lemma_amap_contains(s0, key@);
                let lv = plentries_view(plentries@);
                let k = choose|k: int| 0 <= k < s0.len() && (#[trigger] s0[k]).0 == key@;
                assert(s0[k] == lv.take(j as int)[k]);
                assert(lv.take(j as int)[k] == lv[k]);
                assert(lv[j as int].0 == key@);
                assert(lv[k].0 == lv[j as int].0);
                assert(!crate::amap::keys_unique(lv)) by {
                    if crate::amap::keys_unique(lv) {
                        assert(lv[k].0 != lv[j as int].0);
                    }
                }
            }
            return None;
        }
        // the key is what the table is looked up by; the carried name
        // field is stored as it was written
        store.add_player_record(key, &plentries[j].1.0, &plentries[j].1.1);
        proof {
            assert(store.player_entries() =~= plentries_view(plentries@).take(j as int + 1));
        }
        j += 1;
    }
    proof {
        assert(plentries_view(plentries@).take(nl as int) =~= plentries_view(plentries@));
    }
    store.current_profile = cp;
    store.default_profile = dp;
    store.current_player = cpl;
    Some(store)
}

pub proof fn lemma_sp_pentries_bounds(s: Seq<char>, i: int)
    ensures
        sp_pentries(s, i) matches Some(r) ==> i < r.1 <= s.len(),
{
    if 0 <= i < s.len() && s[i] != '}' {
        match sp_pentry(s, i) {
            Some((e, p)) => {
                lemma_sp_pentry_bounds(s, i);
                lemma_sp_pentries_more_bounds(s, p, seq![e]);
            },
            None => {},
        }
    }
}

proof fn lemma_sp_pentries_more_bounds(s: Seq<char>, i: int, acc: Seq<(Seq<char>, Seq<i32>)>)
    requires
        0 <= i,
    ensures
        sp_pentries_more(s, i, acc) matches Some(r) ==> i < r.1 <= s.len(),
    decreases s.len() - i,
{
    if i < s.len() && s[i] != '}' && s[i] == ',' {
        match sp_pentry(s, i + 1) {
            Some((e, p)) => {
                lemma_sp_pentry_bounds(s, i + 1);
                lemma_sp_pentries_more_bounds(s, p, acc.push(e));
            },
            None => {},
        }
    }
}

pub proof fn lemma_sp_plentries_bounds(s: Seq<char>, i: int)
    ensures
        sp_plentries(s, i) matches Some(r) ==> i < r.1 <= s.len(),
{
    if 0 <= i < s.len() && s[i] != '}' {
        match sp_plentry(s, i) {
            Some((e, p)) => {
                lemma_sp_plentry_bounds(s, i);
                lemma_sp_plentries_more_bounds(s, p, seq![e]);
            },
            None => {},
        }
    }
}

proof fn lemma_sp_plentries_more_bounds(
    s: Seq<char>,
    i: int,
    acc: Seq<(Seq<char>, (Seq<char>, Seq<char>))>,
)
    requires
        0 <= i,
    ensures
        sp_plentries_more(s, i, acc) matches Some(r) ==> i < r.1 <= s.len(),
    decreases s.len() - i,
{
    if i < s.len() && s[i] != '}' && s[i] == ',' {
        match sp_plentry(s, i + 1) {
            Some((e, p)) => {
                lemma_sp_plentry_bounds(s, i + 1);
                lemma_sp_plentries_more_bounds(s, p, acc.push(e));
            },
            None => {},
        }
    }
}

/// Characters with one unicode value are one character.
proof fn lemma_char_code_inj(a: char, b: char)
    requires
        a as u32 == b as u32,
    ensures
        a == b,
{
}

/// Hexadecimal digits are read back to their value.
proof fn lemma_hex_digit(n: int)
    requires
        0 <= n < 16,
    ensures
        is_hex_char(hex_digit(n)),
        hex_val(hex_digit(n)) == n,
{
}

/// A string body is read back from its escaped form, whatever follows
/// the closing quote.
proof fn lemma_scan_str_enc(s: Seq<char>, i: int, t: Seq<char>, acc: Seq<char>)
    requires
        0 <= i,
        i + esc(t).len() + 1 <= s.len(),
        s.subrange(i, i + esc(t).len()) == esc(t),
        s[i + esc(t).len()] == '"',
    ensures
        scan_str(s, i, acc) == Some((acc + t, i + esc(t).len() + 1)),
    decreases t.len(),
{
    if t.len() == 0 {
        assert(esc(t).len() == 0);
        assert(acc + t =~= acc);
    } else {
        let e0 = esc_char(t[0]);
        let r = esc(t.skip(1));
        assert(esc(t) == e0 + r);
        assert(e0.len() >= 1);
        assert forall|k: int| 0 <= k < e0.len() implies s[i + k] == e0[k] by {
            assert(s.subrange(i, i + esc(t).len())[k] == s[i + k]);
            assert((e0 + r)[k] == e0[k]);
        }
        assert(s.subrange(i + e0.len(), i + esc(t).len()) =~= r) by {
            assert forall|k: int| 0 <= k < r.len() implies s.subrange(
                i + e0.len(),
                i + esc(t).len(),
            )[k] == r[k] by {
                assert(s.subrange(i, i + esc(t).len())[e0.len() + k] == s[i + e0.len() + k]);
                assert((e0 + r)[e0.len() + k] == r[k]);
            }
        }
        let w = s.subrange(i, i + esc(t).len());
        let c = t[0];
        if c == '"' {
            assert(w[0] == s[i] && (e0 + r)[0] == e0[0]);
            assert(w[1] == s[i + 1] && (e0 + r)[1] == e0[1]);
            assert(s[i] == '\\' && s[i + 1] == '"');
            lemma_scan_str_enc(s, i + 2, t.skip(1), acc.push(c));
            assert(acc.push(c) + t.skip(1) =~= acc + t);
        } else if c == '\\' {
            assert(w[0] == s[i] && (e0 + r)[0] == e0[0]);
            assert(w[1] == s[i + 1] && (e0 + r)[1] == e0[1]);
            assert(s[i] == '\\' && s[i + 1] == '\\');
            lemma_scan_str_enc(s, i + 2, t.skip(1), acc.push(c));
            assert(acc.push(c) + t.skip(1) =~= acc + t);
        } else if (c as u32) < 32 {
            let code = c as u32;
            assert(w[0] == s[i] && (e0 + r)[0] == e0[0]);
            assert(w[1] == s[i + 1] && (e0 + r)[1] == e0[1]);
            assert(w[2] == s[i + 2] && (e0 + r)[2] == e0[2]);
            assert(w[3] == s[i + 3] && (e0 + r)[3] == e0[3]);
            assert(w[4] == s[i + 4] && (e0 + r)[4] == e0[4]);
            assert(w[5] == s[i + 5] && (e0 + r)[5] == e0[5]);
            assert(s[i] == '\\' && s[i + 1] == 'u' && s[i + 2] == '0' && s[i + 3] == '0');
            assert(s[i + 4] == hex_digit((code / 16) as int));
            assert(s[i + 5] == hex_digit((code % 16) as int));
            lemma_hex_digit((code / 16) as int);
            lemma_hex_digit((code % 16) as int);
            assert(hex_val(s[i + 4]) * 16 + hex_val(s[i + 5]) == code);
            let cc = ((hex_val(s[i + 4]) * 16 + hex_val(s[i + 5])) as u8) as char;
            assert(cc as u32 == code);
            assert(c as u32 == code);
            assert(cc == c) by {
                lemma_char_code_inj(cc, c);
            }
            lemma_scan_str_enc(s, i + 6, t.skip(1), acc.push(c));
            assert(acc.push(c) + t.skip(1) =~= acc + t);
        } else {
            assert(w[0] == s[i] && (e0 + r)[0] == e0[0]);
            assert(e0[0] == c);
            assert(s[i] == c);
            lemma_scan_str_enc(s, i + 1, t.skip(1), acc.push(c));
            assert(acc.push(c) + t.skip(1) =~= acc + t);
        }
    }
}

/// A digit run is read back to its value, scaled into the accumulator.
proof fn lemma_scan_digits_enc(s: Seq<char>, i: int, n: nat, acc: int)
    requires
        0 <= i,
        i + dec_chars(n).len() <= s.len(),
        s.subrange(i, i + dec_chars(n).len()) == dec_chars(n),
    ensures
        scan_digits(s, i, acc) == scan_digits(
            s,
            i + dec_chars(n).len(),
            acc * crate::text::pow10(dec_chars(n).len() as nat) + n,
        ),
    decreases n,
{
    crate::text::lemma_dec_digits_all_digits(n);
    if n < 10 {
        assert(dec_chars(n).len() == 1);
        assert(s[i] == dec_chars(n)[0]) by {
            assert(s.subrange(i, i + 1)[0] == s[i]);
        }
        assert(dec_chars(n)[0] == ((48 + n) as u8) as char);
        assert(is_digit_char(s[i]));
        assert(s[i] as u32 - 48 == n);
        assert(crate::text::pow10(0) == 1);
        assert(crate::text::pow10(1) == 10);
        assert(scan_digits(s, i, acc) == scan_digits(s, i + 1, acc * 10 + n));
    } else {
        let front = dec_chars((n / 10) as nat);
        let d = crate::text::dec_digits(n).last();
        assert(crate::text::dec_digits(n) == crate::text::dec_digits((n / 10) as nat) + seq![
            (48 + n % 10) as u8,
        ]);
        assert(dec_chars(n) =~= front + seq![((48 + n % 10) as u8) as char]) by {
            assert forall|k: int| 0 <= k < dec_chars(n).len() implies dec_chars(n)[k] == (front
                + seq![((48 + n % 10) as u8) as char])[k] by {
                if k < front.len() {
                    assert(crate::text::dec_digits(n)[k] == crate::text::dec_digits(
                        (n / 10) as nat,
                    )[k]);
                }
            }
        }
        assert(s.subrange(i, i + front.len()) =~= front) by {
            assert forall|k: int| 0 <= k < front.len() implies s.subrange(i, i + front.len())[k]
                == front[k] by {
                assert(s.subrange(i, i + dec_chars(n).len())[k] == s[i + k]);
                assert((front + seq![((48 + n % 10) as u8) as char])[k] == front[k]);
            }
        }
        lemma_scan_digits_enc(s, i, (n / 10) as nat, acc);
        let p = crate::text::pow10(front.len() as nat);
        let mid = acc * p + n / 10;
        assert(s[i + front.len()] == ((48 + n % 10) as u8) as char) by {
            assert(s.subrange(i, i + dec_chars(n).len())[front.len() as int] == s[i
                + front.len()]);
        }
        assert(is_digit_char(s[i + front.len()]));
        assert(scan_digits(s, i + front.len(), mid) == scan_digits(
            s,
            i + front.len() + 1,
            mid * 10 + (n % 10),
        ));
        assert(crate::text::pow10((front.len() + 1) as nat) == 10 * p);
        assert(mid * 10 + (n % 10) == acc * (10 * p) + n) by (nonlinear_arith)
            requires
                mid == acc * p + n / 10,
                n == 10 * (n / 10) + n % 10,
        ;
        assert(dec_chars(n).len() == front.len() + 1);
    }
}

/// A rendered signed value is read back, provided what follows it is
/// not a digit.
proof fn lemma_scan_i32_enc(s: Seq<char>, i: int, v: i32)
    requires
        0 <= i,
        i + render_chars(v as int).len() < s.len(),
        s.subrange(i, i + render_chars(v as int).len()) == render_chars(v as int),
        !is_digit_char(s[i + render_chars(v as int).len()]),
    ensures
        scan_i32(s, i) == Some((v, i + render_chars(v as int).len())),
{
    let rc = render_chars(v as int);
    if v >= 0 {
        let n = v as nat;
        crate::text::lemma_dec_digits_all_digits(n);
        assert(rc =~= dec_chars(n));
        assert(s[i] == rc[0]) by {
            assert(s.subrange(i, i + rc.len())[0] == s[i]);
        }
        assert(is_digit_char(s[i]));
        assert(s[i] != '-') by {
            assert(rc[0] == (crate::text::dec_digits(n)[0] as char));
            assert(crate::text::is_digit(crate::text::dec_digits(n)[0]));
        }
        lemma_scan_digits_enc(s, i, n, 0);
        assert(scan_digits(s, i + rc.len(), 0 * crate::text::pow10(rc.len() as nat) + (
        n as int)) == (0 * crate::text::pow10(rc.len() as nat) + (n as int), i + rc.len()));
    } else {
        let n = (-(v as int)) as nat;
        crate::text::lemma_dec_digits_all_digits(n);
        assert(crate::text::render_int(v as int) == seq![45u8] + crate::text::dec_digits(n));
        assert(rc[0] == '-') by {
            assert((seq![45u8] + crate::text::dec_digits(n))[0] == 45u8);
        }
        assert(s[i] == '-') by {
            assert(s.subrange(i, i + rc.len())[0] == s[i]);
        }
        assert(s.subrange(i + 1, i + rc.len()) =~= dec_chars(n)) by {
            assert forall|k: int| 0 <= k < dec_chars(n).len() implies s.subrange(
                i + 1,
                i + rc.len(),
            )[k] == dec_chars(n)[k] by {
                assert(s.subrange(i, i + rc.len())[k + 1] == s[i + 1 + k]);
                assert(rc[k + 1] == ((seq![45u8] + crate::text::dec_digits(n))[k + 1] as char));
                assert((seq![45u8] + crate::text::dec_digits(n))[k + 1]
                    == crate::text::dec_digits(n)[k]);
            }
        }
        assert(s[i + 1] == dec_chars(n)[0]) by {
            assert(s.subrange(i + 1, i + rc.len())[0] == s[i + 1]);
        }
        assert(is_digit_char(s[i + 1]));
        lemma_scan_digits_enc(s, i + 1, n, 0);
        assert(rc.len() == 1 + dec_chars(n).len());
        assert(scan_digits(s, i + 1 + dec_chars(n).len(), 0 * crate::text::pow10(
            dec_chars(n).len() as nat,
        ) + (n as int)) == (0 * crate::text::pow10(dec_chars(n).len() as nat) + (n as int), i
            + rc.len()));
    }
}

/// A piece of a concatenation stands at its offset.
proof fn lemma_subrange_of(s: Seq<char>, i: int, pre: Seq<char>, piece: Seq<char>)
    requires
        0 <= i,
        i + pre.len() + piece.len() <= s.len(),
        s.subrange(i, i + pre.len() + piece.len()) == pre + piece,
    ensures
        s.subrange(i, i + pre.len()) == pre,
        s.subrange(i + pre.len(), i + pre.len() + piece.len()) == piece,
{
    assert(s.subrange(i, i + pre.len()) =~= pre) by {
        assert forall|k: int| 0 <= k < pre.len() implies s.subrange(i, i + pre.len())[k]
            == pre[k] by {
            assert(s.subrange(i, i + pre.len() + piece.len())[k] == s[i + k]);
            assert((pre + piece)[k] == pre[k]);
            assert(s.subrange(i, i + pre.len())[k] == s[i + k]);
        }
    }
    assert(s.subrange(i + pre.len(), i + pre.len() + piece.len()) =~= piece) by {
        assert forall|k: int| 0 <= k < piece.len() implies s.subrange(
            i + pre.len(),
            i + pre.len() + piece.len(),
        )[k] == piece[k] by {
            assert(s.subrange(i, i + pre.len() + piece.len())[pre.len() + k] == s[i + pre.len()
                + k]);
            assert((pre + piece)[pre.len() + k] == piece[k]);
        }
    }
}

/// A threshold list is read back from its encoding.
proof fn lemma_sp_thr_enc(s: Seq<char>, i: int, t: Seq<i32>)
    requires
        t.len() == 4,
        0 <= i,
        i + enc_thr(t).len() <= s.len(),
        s.subrange(i, i + enc_thr(t).len()) == enc_thr(t),
    ensures
        sp_thr(s, i) == Some((t, i + enc_thr(t).len())),
{
    let r0 = render_chars(t[0] as int);
    let r1 = render_chars(t[1] as int);
    let r2 = render_chars(t[2] as int);
    let r3 = render_chars(t[3] as int);
    let w = enc_thr(t);
    assert forall|k: int| 0 <= k < w.len() implies s[i + k] == w[k] by {
        assert(s.subrange(i, i + w.len())[k] == s[i + k]);
    }
    let o0 = i + 1;
    let o1 = o0 + r0.len() + 1;
    let o2 = o1 + r1.len() + 1;
    let o3 = o2 + r2.len() + 1;
    let o4 = o3 + r3.len();
    assert(s[i] == '[') by {
        assert(w[0] == '[');
    }
    assert(s.subrange(i, i + 1) =~= seq!['[']);
    assert(s.subrange(o0, o0 + r0.len()) =~= r0) by {
        assert(forall|k: int| 0 <= k < r0.len() ==> w[1 + k] == r0[k]);
    }
    assert(s[o0 + r0.len()] == ',') by {
        assert(w[1 + r0.len() as int] == ',');
    }
    assert(!is_digit_char(','));
    lemma_scan_i32_enc(s, o0, t[0]);
    assert(s.subrange(o0 + r0.len(), o0 + r0.len() + 1) =~= seq![',']);
    assert(s.subrange(o1, o1 + r1.len()) =~= r1) by {
        assert(forall|k: int| 0 <= k < r1.len() ==> w[(o1 - i) + k] == r1[k]);
    }
    assert(s[o1 + r1.len()] == ',') by {
        assert(w[(o1 - i) + r1.len() as int] == ',');
    }
    lemma_scan_i32_enc(s, o1, t[1]);
    assert(s.subrange(o1 + r1.len(), o1 + r1.len() + 1) =~= seq![',']);
    assert(s.subrange(o2, o2 + r2.len()) =~= r2) by {
        assert(forall|k: int| 0 <= k < r2.len() ==> w[(o2 - i) + k] == r2[k]);
    }
    assert(s[o2 + r2.len()] == ',') by {
        assert(w[(o2 - i) + r2.len() as int] == ',');
    }
    lemma_scan_i32_enc(s, o2, t[2]);
    assert(s.subrange(o2 + r2.len(), o2 + r2.len() + 1) =~= seq![',']);
    assert(s.subrange(o3, o3 + r3.len()) =~= r3) by {
        assert(forall|k: int| 0 <= k < r3.len() ==> w[(o3 - i) + k] == r3[k]);
    }
    assert(s[o3 + r3.len()] == ']') by {
        assert(w[(o3 - i) + r3.len() as int] == ']');
    }
    assert(!is_digit_char(']'));
    lemma_scan_i32_enc(s, o3, t[3]);
    assert(s.subrange(o4, o4 + 1) =~= seq![']']);
    assert(seq![t[0], t[1], t[2], t[3]] =~= t);
}

/// A whole encoded string is read back from its position.
proof fn lemma_enc_str_at(s: Seq<char>, i: int, t: Seq<char>)
    requires
        0 <= i,
        i + enc_str(t).len() <= s.len(),
        s.subrange(i, i + enc_str(t).len()) == enc_str(t),
    ensures
        s[i] == '"',
        scan_str(s, i + 1, Seq::empty()) == Some((t, i + enc_str(t).len())),
{
    let q: Seq<char> = seq!['"'];
    assert(enc_str(t) == q + esc(t) + q);
    lemma_subrange_of(s, i, q + esc(t), q);
    lemma_subrange_of(s, i, q, esc(t));
    assert(s[i] == '"') by {
        assert(s.subrange(i, i + 1)[0] == s[i]);
    }
    assert(s[i + 1 + esc(t).len()] == '"') by {
        assert(s.subrange(i + (q + esc(t)).len(), i + (q + esc(t)).len() + 1)[0] == s[i + 1
            + esc(t).len()]);
    }
    assert(s.subrange(i + 1, i + 1 + esc(t).len()) == esc(t));
    lemma_scan_str_enc(s, i + 1, t, Seq::empty());
    assert(Seq::<char>::empty() + t =~= t);
}

/// One profile entry is read back from its encoding.
proof fn lemma_sp_pentry_enc(s: Seq<char>, i: int, e: (Seq<char>, Seq<i32>))
    requires
        e.1.len() == 4,
        0 <= i,
        i + enc_pentry(e).len() <= s.len(),
        s.subrange(i, i + enc_pentry(e).len()) == enc_pentry(e),
    ensures
        sp_pentry(s, i) == Some((e, i + enc_pentry(e).len())),
{
    let a = enc_str(e.0);
    let b = ":{\"thresholds\":"@;
    let c = enc_thr(e.1);
    let d: Seq<char> = seq!['}'];
    assert(enc_pentry(e) == a + b + c + d);
    lemma_subrange_of(s, i, a + b + c, d);
    lemma_subrange_of(s, i, a + b, c);
    lemma_subrange_of(s, i, a, b);
    lemma_enc_str_at(s, i, e.0);
    assert(lit_at(s, i, seq!['"'])) by {
        assert(s.subrange(i, i + 1) =~= seq![s[i]]);
    }
    let p1 = i + a.len();
    assert(lit_at(s, p1, b));
    lemma_sp_thr_enc(s, p1 + b.len(), e.1);
    let p2 = p1 + b.len() + c.len();
    assert(lit_at(s, p2, seq!['}'])) by {
        assert(s.subrange(p2, p2 + 1)[0] == s[p2]);
        assert(s.subrange(p2, p2 + 1) =~= seq![s[p2]]);
    }
}

/// One player entry is read back from its encoding.
proof fn lemma_sp_plentry_enc(s: Seq<char>, i: int, e: (Seq<char>, (Seq<char>, Seq<char>)))
    requires
        0 <= i,
        i + enc_plentry(e).len() <= s.len(),
        s.subrange(i, i + enc_plentry(e).len()) == enc_plentry(e),
    ensures
        sp_plentry(s, i) == Some((e, i + enc_plentry(e).len())),
{
    let a = enc_str(e.0);
    let b = ":{\"name\":"@;
    let c = enc_str(e.1.0);
    let d = ",\"profile\":"@;
    let f = enc_str(e.1.1);
    let g: Seq<char> = seq!['}'];
    assert(enc_plentry(e) == a + b + c + d + f + g);
    lemma_subrange_of(s, i, a + b + c + d + f, g);
    lemma_subrange_of(s, i, a + b + c + d, f);
    lemma_subrange_of(s, i, a + b + c, d);
    lemma_subrange_of(s, i, a + b, c);
    lemma_subrange_of(s, i, a, b);
    lemma_enc_str_at(s, i, e.0);
    assert(lit_at(s, i, seq!['"'])) by {
        assert(s.subrange(i, i + 1) =~= seq![s[i]]);
    }
    let p1 = i + a.len();
    lemma_enc_str_at(s, p1 + b.len(), e.1.0);
    assert(lit_at(s, p1, ":{\"name\":\""@)) by {
        reveal_strlit(":{\"name\":");
        reveal_strlit(":{\"name\":\"");
        assert(s.subrange(p1, p1 + ":{\"name\":\""@.len()) =~= ":{\"name\":\""@) by {
            assert(s.subrange(p1, p1 + b.len()) == b);
            assert(forall|k: int|
                0 <= k < b.len() ==> (#[trigger] s.subrange(p1, p1 + b.len())[k]) == s[p1 + k]);
            assert(s[p1 + b.len()] == '"');
            assert(forall|k: int|
                0 <= k < ":{\"name\":\""@.len() ==> (#[trigger] s.subrange(
                    p1,
                    p1 + ":{\"name\":\""@.len(),
                )[k]) == s[p1 + k]);
        }
    }
    assert(p1 + ":{\"name\":\""@.len() == p1 + b.len() + 1) by {
        reveal_strlit(":{\"name\":");
        reveal_strlit(":{\"name\":\"");
    }
    let p2 = p1 + b.len() + c.len();
    lemma_enc_str_at(s, p2 + d.len(), e.1.1);
    assert(lit_at(s, p2, ",\"profile\":\""@)) by {
        reveal_strlit(",\"profile\":");
        reveal_strlit(",\"profile\":\"");
        assert(s.subrange(p2, p2 + ",\"profile\":\""@.len()) =~= ",\"profile\":\""@) by {
            assert(s.subrange(p2, p2 + d.len()) == d);
            assert(forall|k: int|
                0 <= k < d.len() ==> (#[trigger] s.subrange(p2, p2 + d.len())[k]) == s[p2 + k]);
            assert(s[p2 + d.len()] == '"');
            assert(forall|k: int|
                0 <= k < ",\"profile\":\""@.len() ==> (#[trigger] s.subrange(
                    p2,
                    p2 + ",\"profile\":\""@.len(),
                )[k]) == s[p2 + k]);
        }
    }
    assert(p2 + ",\"profile\":\""@.len() == p2 + d.len() + 1) by {
        reveal_strlit(",\"profile\":");
        reveal_strlit(",\"profile\":\"");
    }
    let p3 = p2 + d.len() + f.len();
    assert(lit_at(s, p3, seq!['}'])) by {
        assert(s.subrange(p3, p3 + 1)[0] == s[p3]);
        assert(s.subrange(p3, p3 + 1) =~= seq![s[p3]]);
    }
}

/// The rest of a profile table is read back from its encoding.
proof fn lemma_sp_pentries_more_enc(
    s: Seq<char>,
    i: int,
    rest: Seq<(Seq<char>, Seq<i32>)>,
    acc: Seq<(Seq<char>, Seq<i32>)>,
)
    requires
        forall|k: int| 0 <= k < rest.len() ==> (#[trigger] rest[k]).1.len() == 4,
        0 <= i,
        i + enc_pentries_tail(rest).len() + 1 <= s.len(),
        s.subrange(i, i + enc_pentries_tail(rest).len() + 1) == enc_pentries_tail(rest) + seq![
            '}',
        ],
    ensures
        sp_pentries_more(s, i, acc) == Some((acc + rest, i + enc_pentries_tail(rest).len() + 1)),
    decreases rest.len(),
{
    if rest.len() == 0 {
        assert(enc_pentries_tail(rest).len() == 0);
        assert(s[i] == '}') by {
            assert(s.subrange(i, i + 1)[0] == s[i]);
        }
        assert(acc + rest =~= acc);
    } else {
        let com: Seq<char> = seq![','];
        let e = enc_pentry(rest[0]);
        let tl = enc_pentries_tail(rest.skip(1));
        assert(enc_pentries_tail(rest) == com + e + tl);
        assert(s.subrange(i, i + enc_pentries_tail(rest).len() + 1) =~= (com + e) + (tl + seq![
            '}',
        ]));
        lemma_subrange_of(s, i, com + e, tl + seq!['}']);
        lemma_subrange_of(s, i, com, e);
        assert(s[i] == ',') by {
            assert(s.subrange(i, i + 1)[0] == s[i]);
        }
        assert(rest[0].1.len() == 4);
        lemma_sp_pentry_enc(s, i + 1, rest[0]);
        lemma_sp_pentries_more_enc(s, i + 1 + e.len(), rest.skip(1), acc.push(rest[0]));
        assert(acc.push(rest[0]) + rest.skip(1) =~= acc + rest);
    }
}

/// A profile table is read back from its encoding.
proof fn lemma_sp_pentries_enc(s: Seq<char>, i: int, entries: Seq<(Seq<char>, Seq<i32>)>)
    requires
        forall|k: int| 0 <= k < entries.len() ==> (#[trigger] entries[k]).1.len() == 4,
        0 <= i,
        i + enc_pentries(entries).len() + 1 <= s.len(),
        s.subrange(i, i + enc_pentries(entries).len() + 1) == enc_pentries(entries) + seq!['}'],
    ensures
        sp_pentries(s, i) == Some((entries, i + enc_pentries(entries).len() + 1)),
{
    if entries.len() == 0 {
        assert(s[i] == '}') by {
            assert(s.subrange(i, i + 1)[0] == s[i]);
        }
    } else {
        let e = enc_pentry(entries[0]);
        let tl = enc_pentries_tail(entries.skip(1));
        assert(enc_pentries(entries) == e + tl);
        assert(s.subrange(i, i + enc_pentries(entries).len() + 1) =~= e + (tl + seq!['}']));
        lemma_subrange_of(s, i, e, tl + seq!['}']);
        assert(entries[0].1.len() == 4);
        lemma_sp_pentry_enc(s, i, entries[0]);
        assert(s[i] == '"') by {
            assert(enc_pentry(entries[0])[0] == '"') by {
                assert((enc_str(entries[0].0) + ":{\"thresholds\":"@ + enc_thr(entries[0].1)
                    + seq!['}'])[0] == enc_str(entries[0].0)[0]);
                assert((seq!['"'] + esc(entries[0].0) + seq!['"'])[0] == '"');
            }
            assert(s.subrange(i, i + e.len())[0] == s[i]);
        }
        assert(forall|k: int|
            0 <= k < entries.skip(1).len() ==> (#[trigger] entries.skip(1)[k]).1.len() == 4);
        lemma_sp_pentries_more_enc(s, i + e.len(), entries.skip(1), seq![entries[0]]);
        assert(seq![entries[0]] + entries.skip(1) =~= entries);
    }
}

/// The rest of a player table is read back from its encoding.
proof fn lemma_sp_plentries_more_enc(
    s: Seq<char>,
    i: int,
    rest: Seq<(Seq<char>, (Seq<char>, Seq<char>))>,
    acc: Seq<(Seq<char>, (Seq<char>, Seq<char>))>,
)
    requires
        0 <= i,
        i + enc_plentries_tail(rest).len() + 1 <= s.len(),
        s.subrange(i, i + enc_plentries_tail(rest).len() + 1) == enc_plentries_tail(rest)
            + seq!['}'],
    ensures
        sp_plentries_more(s, i, acc) == Some(
            (acc + rest, i + enc_plentries_tail(rest).len() + 1),
        ),
    decreases rest.len(),
{
    if rest.len() == 0 {
        assert(enc_plentries_tail(rest).len() == 0);
        assert(s[i] == '}') by {
            assert(s.subrange(i, i + 1)[0] == s[i]);
        }
        assert(acc + rest =~= acc);
    } else {
        let com: Seq<char> = seq![','];
        let e = enc_plentry(rest[0]);
        let tl = enc_plentries_tail(rest.skip(1));
        assert(enc_plentries_tail(rest) == com + e + tl);
        assert(s.subrange(i, i + enc_plentries_tail(rest).len() + 1) =~= (com + e) + (tl + seq![
            '}',
        ]));
        lemma_subrange_of(s, i, com + e, tl + seq!['}']);
        lemma_subrange_of(s, i, com, e);
        assert(s[i] == ',') by {
            assert(s.subrange(i, i + 1)[0] == s[i]);
        }
        lemma_sp_plentry_enc(s, i + 1, rest[0]);
        lemma_sp_plentries_more_enc(s, i + 1 + e.len(), rest.skip(1), acc.push(rest[0]));
        assert(acc.push(rest[0]) + rest.skip(1) =~= acc + rest);
    }
}

/// A player table is read back from its encoding.
proof fn lemma_sp_plentries_enc(
    s: Seq<char>,
    i: int,
    entries: Seq<(Seq<char>, (Seq<char>, Seq<char>))>,
)
    requires
        0 <= i,
        i + enc_plentries(entries).len() + 1 <= s.len(),
        s.subrange(i, i + enc_plentries(entries).len() + 1) == enc_plentries(entries) + seq!['}'],
    ensures
        sp_plentries(s, i) == Some((entries, i + enc_plentries(entries).len() + 1)),
{
    if entries.len() == 0 {
        assert(s[i] == '}') by {
            assert(s.subrange(i, i + 1)[0] == s[i]);
        }
    } else {
        let e = enc_plentry(entries[0]);
        let tl = enc_plentries_tail(entries.skip(1));
        assert(enc_plentries(entries) == e + tl);
        assert(s.subrange(i, i + enc_plentries(entries).len() + 1) =~= e + (tl + seq!['}']));
        lemma_subrange_of(s, i, e, tl + seq!['}']);
        lemma_sp_plentry_enc(s, i, entries[0]);
        assert(s[i] == '"') by {
            assert(enc_plentry(entries[0])[0] == '"') by {
                assert((enc_str(entries[0].0) + ":{\"name\":"@ + enc_str(entries[0].1.0)
                    + ",\"profile\":"@ + enc_str(entries[0].1.1) + seq!['}'])[0] == enc_str(
                    entries[0].0,
                )[0]);
                assert((seq!['"'] + esc(entries[0].0) + seq!['"'])[0] == '"');
            }
            assert(s.subrange(i, i + e.len())[0] == s[i]);
        }
        lemma_sp_plentries_more_enc(s, i + e.len(), entries.skip(1), seq![entries[0]]);
        assert(seq![entries[0]] + entries.skip(1) =~= entries);
    }
}

/// The literal pairs the document's pointer fields are read with.
proof fn lemma_lit_pairs()
    ensures
        "},\"current_profile\":\""@ == "},\"current_profile\":"@.push('"'),
        ",\"default_profile\":\""@ == ",\"default_profile\":"@.push('"'),
        "},\"current_player\":\""@ == "},\"current_player\":"@.push('"'),
        "},\"current_profile\":"@[0] == '}',
        "},\"current_player\":"@[0] == '}',
        "},\"current_profile\":"@.len() >= 1,
        "},\"current_player\":"@.len() >= 1,
{
    reveal_strlit("},\"current_profile\":\"");
    reveal_strlit("},\"current_profile\":");
    reveal_strlit(",\"default_profile\":\"");
    reveal_strlit(",\"default_profile\":");
    reveal_strlit("},\"current_player\":\"");
    reveal_strlit("},\"current_player\":");
    assert("},\"current_profile\":\""@ =~= "},\"current_profile\":"@.push('"'));
    assert(",\"default_profile\":\""@ =~= ",\"default_profile\":"@.push('"'));
    assert("},\"current_player\":\""@ =~= "},\"current_player\":"@.push('"'));
}

/// A pointer field: its literal with the opening quote folded in is
/// read, then the string itself.
proof fn lemma_field_str(s: Seq<char>, o: int, lit: Seq<char>, litq: Seq<char>, t: Seq<char>)
    requires
        litq == lit.push('"'),
        0 <= o,
        o + lit.len() + enc_str(t).len() <= s.len(),
        s.subrange(o, o + lit.len()) == lit,
        s.subrange(o + lit.len(), o + lit.len() + enc_str(t).len()) == enc_str(t),
    ensures
        lit_at(s, o, litq),
        o + litq.len() == o + lit.len() + 1,
        scan_str(s, o + lit.len() + 1, Seq::empty()) == Some(
            (t, o + lit.len() + enc_str(t).len()),
        ),
{
    lemma_enc_str_at(s, o + lit.len(), t);
    assert(s.subrange(o, o + litq.len()) =~= litq) by {
        assert(forall|k: int|
            0 <= k < lit.len() ==> (#[trigger] s.subrange(o, o + lit.len())[k]) == s[o + k]);
        assert(forall|k: int|
            0 <= k < litq.len() ==> (#[trigger] s.subrange(o, o + litq.len())[k]) == s[o + k]);
    }
}

/// A profile table followed by its closing brace is read back whole.
proof fn lemma_table_p(s: Seq<char>, o: int, pe: Seq<(Seq<char>, Seq<i32>)>)
    requires
        forall|k: int| 0 <= k < pe.len() ==> (#[trigger] pe[k]).1.len() == 4,
        0 <= o,
        o + enc_pentries(pe).len() + 1 <= s.len(),
        s.subrange(o, o + enc_pentries(pe).len()) == enc_pentries(pe),
        s[o + enc_pentries(pe).len()] == '}',
    ensures
        sp_pentries(s, o) == Some((pe, o + enc_pentries(pe).len() + 1)),
{
    let b = enc_pentries(pe);
    assert(s.subrange(o, o + b.len() + 1) =~= b + seq!['}']) by {
        assert(forall|k: int|
            0 <= k < b.len() ==> (#[trigger] s.subrange(o, o + b.len())[k]) == s[o + k]);
        assert(forall|k: int|
            0 <= k < b.len() + 1 ==> (#[trigger] s.subrange(o, o + b.len() + 1)[k]) == s[o + k]);
    }
    lemma_sp_pentries_enc(s, o, pe);
}

/// A player table followed by its closing brace is read back whole.
proof fn lemma_table_pl(s: Seq<char>, o: int, ple: Seq<(Seq<char>, (Seq<char>, Seq<char>))>)
    requires
        0 <= o,
        o + enc_plentries(ple).len() + 1 <= s.len(),
        s.subrange(o, o + enc_plentries(ple).len()) == enc_plentries(ple),
        s[o + enc_plentries(ple).len()] == '}',
    ensures
        sp_plentries(s, o) == Some((ple, o + enc_plentries(ple).len() + 1)),
{
    let h = enc_plentries(ple);
    assert(s.subrange(o, o + h.len() + 1) =~= h + seq!['}']) by {
        assert(forall|k: int|
            0 <= k < h.len() ==> (#[trigger] s.subrange(o, o + h.len())[k]) == s[o + k]);
        assert(forall|k: int|
            0 <= k < h.len() + 1 ==> (#[trigger] s.subrange(o, o + h.len() + 1)[k]) == s[o + k]);
    }
    lemma_sp_plentries_enc(s, o, ple);
}

/// Where each piece of the document stands.
#[verifier::rlimit(100)]
#[verifier::spinoff_prover]
proof fn lemma_store_offsets(
    pe: Seq<(Seq<char>, Seq<i32>)>,
    ple: Seq<(Seq<char>, (Seq<char>, Seq<char>))>,
    cp: Seq<char>,
    dp: Seq<char>,
    cpl: Seq<char>,
)
    ensures
        ({
            let s = enc_store(pe, ple, cp, dp, cpl);
            let a = "{\"profiles\":{"@;
            let b = enc_pentries(pe);
            let c = "},\"current_profile\":"@;
            let d = enc_str(cp);
            let e = ",\"default_profile\":"@;
            let f = enc_str(dp);
            let g = ",\"players\":{"@;
            let h = enc_plentries(ple);
            let l = "},\"current_player\":"@;
            let m = enc_str(cpl);
            let o1 = a.len() as int;
            let o2 = o1 + b.len();
            let o3 = o2 + c.len();
            let o4 = o3 + d.len();
            let o5 = o4 + e.len();
            let o6 = o5 + f.len();
            let o7 = o6 + g.len();
            let o8 = o7 + h.len();
            let o9 = o8 + l.len();
            let o10 = o9 + m.len();
            &&& s.len() == o10 + 1
            &&& s.subrange(0, o1) == a
            &&& s.subrange(o1, o2) == b
            &&& s.subrange(o2, o3) == c
            &&& s.subrange(o3, o4) == d
            &&& s.subrange(o4, o5) == e
            &&& s.subrange(o5, o6) == f
            &&& s.subrange(o6, o7) == g
            &&& s.subrange(o7, o8) == h
            &&& s.subrange(o8, o9) == l
            &&& s.subrange(o9, o10) == m
            &&& s.subrange(o10, o10 + 1) == seq!['}']
        }),
{
    let s = enc_store(pe, ple, cp, dp, cpl);
    let a = "{\"profiles\":{"@;
    let b = enc_pentries(pe);
    let c = "},\"current_profile\":"@;
    let d = enc_str(cp);
    let e = ",\"default_profile\":"@;
    let f = enc_str(dp);
    let g = ",\"players\":{"@;
    let h = enc_plentries(ple);
    let l = "},\"current_player\":"@;
    let m = enc_str(cpl);
    let n: Seq<char> = seq!['}'];
    assert(s.subrange(0, s.len() as int) =~= s);
    lemma_subrange_of(s, 0, a + b + c + d + e + f + g + h + l + m, n);
    lemma_subrange_of(s, 0, a + b + c + d + e + f + g + h + l, m);
    lemma_subrange_of(s, 0, a + b + c + d + e + f + g + h, l);
    lemma_subrange_of(s, 0, a + b + c + d + e + f + g, h);
    lemma_subrange_of(s, 0, a + b + c + d + e + f, g);
    lemma_subrange_of(s, 0, a + b + c + d + e, f);
    lemma_subrange_of(s, 0, a + b + c + d, e);
    lemma_subrange_of(s, 0, a + b + c, d);
    lemma_subrange_of(s, 0, a + b, c);
    lemma_subrange_of(s, 0, a, b);
}

/// The law of the persisted form: a document written from entry lists
/// and pointers reads back to exactly those entry lists and pointers.
#[verifier::rlimit(100)]
#[verifier::spinoff_prover]
pub proof fn lemma_store_roundtrip(
    pe: Seq<(Seq<char>, Seq<i32>)>,
    ple: Seq<(Seq<char>, (Seq<char>, Seq<char>))>,
    cp: Seq<char>,
    dp: Seq<char>,
    cpl: Seq<char>,
)
    requires
        forall|k: int| 0 <= k < pe.len() ==> (#[trigger] pe[k]).1.len() == 4,
    ensures
        sp_store(enc_store(pe, ple, cp, dp, cpl)) == Some(StoreDoc { pe, ple, cp, dp, cpl }),
{
    let s = enc_store(pe, ple, cp, dp, cpl);
    let a = "{\"profiles\":{"@;
    let b = enc_pentries(pe);
    let c = "},\"current_profile\":"@;
    let d = enc_str(cp);
    let e = ",\"default_profile\":"@;
    let f = enc_str(dp);
    let g = ",\"players\":{"@;
    let h = enc_plentries(ple);
    let l = "},\"current_player\":"@;
    let m = enc_str(cpl);
    lemma_lit_pairs();
    lemma_store_offsets(pe, ple, cp, dp, cpl);
    let o1 = a.len() as int;
    let o2 = o1 + b.len();
    let o3 = o2 + c.len();
    let o4 = o3 + d.len();
    let o5 = o4 + e.len();
    let o6 = o5 + f.len();
    let o7 = o6 + g.len();
    let o8 = o7 + h.len();
    let o9 = o8 + l.len();
    let o10 = o9 + m.len();
    assert(lit_at(s, 0, a));
    assert(s[o2] == '}') by {
        assert(s.subrange(o2, o3)[0] == s[o2]);
    }
    lemma_table_p(s, o1, pe);
    lemma_field_str(s, o2, c, "},\"current_profile\":\""@, cp);
    lemma_field_str(s, o4, e, ",\"default_profile\":\""@, dp);
    assert(lit_at(s, o6, g));
    assert(s[o8] == '}') by {
        assert(s.subrange(o8, o9)[0] == s[o8]);
    }
    lemma_table_pl(s, o7, ple);
    lemma_field_str(s, o8, l, "},\"current_player\":\""@, cpl);
    assert(s[o10] == '}') by {
        assert(s.subrange(o10, o10 + 1)[0] == s[o10]);
    }
    assert(lit_at(s, o10, seq!['}'])) by {
        assert(s.subrange(o10, o10 + 1) =~= seq![s[o10]]);
    }
    assert(o10 + 1 == s.len());
    assert(o1 == "{\"profiles\":{"@.len());
    // walk the reader through the document, one committed step at a time
    assert(sp_pentries(s, o1) == Some((pe, o2 + 1)));
    assert((o2 + 1) - 1 == o2);
    assert(lit_at(s, o2, "},\"current_profile\":\""@));
    assert(o2 + "},\"current_profile\":\""@.len() == o3 + 1);
    assert(scan_str(s, o3 + 1, Seq::empty()) == Some((cp, o4)));
    assert(lit_at(s, o4, ",\"default_profile\":\""@));
    assert(o4 + ",\"default_profile\":\""@.len() == o5 + 1);
    assert(scan_str(s, o5 + 1, Seq::empty()) == Some((dp, o6)));
    assert(lit_at(s, o6, ",\"players\":{"@));
    assert(sp_plentries(s, o7) == Some((ple, o8 + 1)));
    assert((o8 + 1) - 1 == o8);
    assert(lit_at(s, o8, "},\"current_player\":\""@));
    assert(o8 + "},\"current_player\":\""@.len() == o9 + 1);
    assert(scan_str(s, o9 + 1, Seq::empty()) == Some((cpl, o10)));
    assert(sp_store(s) == Some(StoreDoc { pe, ple, cp, dp, cpl }));
}

proof fn lemma_pentries_tail_snoc(s: Seq<(Seq<char>, Seq<i32>)>, i: int)
    requires
        0 <= i < s.len(),
    ensures
        enc_pentries_tail(s.take(i + 1)) == enc_pentries_tail(s.take(i)) + seq![','] + enc_pentry(
            s[i],
        ),
    decreases i,
{
    if i == 0 {
        assert(s.take(1) =~= seq![s[0]]);
        assert(s.take(1).skip(1) =~= Seq::<(Seq<char>, Seq<i32>)>::empty());
        assert(enc_pentries_tail(Seq::<(Seq<char>, Seq<i32>)>::empty()) == Seq::<char>::empty());
        assert(s.take(0) =~= Seq::<(Seq<char>, Seq<i32>)>::empty());
        assert(enc_pentries_tail(s.take(1)) == seq![','] + enc_pentry(s.take(1)[0])
            + enc_pentries_tail(s.take(1).skip(1)));
        assert(s.take(1)[0] == s[0]);
        assert(enc_pentries_tail(s.take(1)) =~= seq![','] + enc_pentry(s[0]));
        assert(enc_pentries_tail(s.take(0)) + seq![','] + enc_pentry(s[0]) =~= seq![',']
            + enc_pentry(s[0]));
    } else {
        lemma_pentries_tail_snoc(s.skip(1), i - 1);
        assert(s.take(i + 1)[0] == s[0]);
        assert(s.take(i + 1).skip(1) =~= s.skip(1).take(i));
        assert(s.take(i)[0] == s[0]);
        assert(s.take(i).skip(1) =~= s.skip(1).take(i - 1));
        assert(s.skip(1)[i - 1] == s[i]);
        assert(enc_pentries_tail(s.take(i + 1)) == seq![','] + enc_pentry(s[0])
            + enc_pentries_tail(s.skip(1).take(i)));
        assert(enc_pentries_tail(s.take(i)) == seq![','] + enc_pentry(s[0]) + enc_pentries_tail(
            s.skip(1).take(i - 1),
        ));
        assert(seq![','] + enc_pentry(s[0]) + (enc_pentries_tail(s.skip(1).take(i - 1)) + seq![',']
            + enc_pentry(s[i])) =~= (seq![','] + enc_pentry(s[0]) + enc_pentries_tail(
            s.skip(1).take(i - 1),
        )) + seq![','] + enc_pentry(s[i]));
    }
}

proof fn lemma_plentries_tail_snoc(s: Seq<(Seq<char>, (Seq<char>, Seq<char>))>, i: int)
    requires
        0 <= i < s.len(),
    ensures
        enc_plentries_tail(s.take(i + 1)) == enc_plentries_tail(s.take(i)) + seq![',']
            + enc_plentry(s[i]),
    decreases i,
{
    if i == 0 {
        assert(s.take(1) =~= seq![s[0]]);
        assert(s.take(1).skip(1) =~= Seq::<(Seq<char>, (Seq<char>, Seq<char>))>::empty());
        assert(enc_plentries_tail(Seq::<(Seq<char>, (Seq<char>, Seq<char>))>::empty())
            == Seq::<char>::empty());
        assert(s.take(0) =~= Seq::<(Seq<char>, (Seq<char>, Seq<char>))>::empty());
        assert(enc_plentries_tail(s.take(1)) == seq![','] + enc_plentry(s.take(1)[0])
            + enc_plentries_tail(s.take(1).skip(1)));
        assert(s.take(1)[0] == s[0]);
        assert(enc_plentries_tail(s.take(1)) =~= seq![','] + enc_plentry(s[0]));
        assert(enc_plentries_tail(s.take(0)) + seq![','] + enc_plentry(s[0]) =~= seq![',']
            + enc_plentry(s[0]));
    } else {
        lemma_plentries_tail_snoc(s.skip(1), i - 1);
        assert(s.take(i + 1)[0] == s[0]);
        assert(s.take(i + 1).skip(1) =~= s.skip(1).take(i));
        assert(s.take(i)[0] == s[0]);
        assert(s.take(i).skip(1) =~= s.skip(1).take(i - 1));
        assert(s.skip(1)[i - 1] == s[i]);
        assert(enc_plentries_tail(s.take(i + 1)) == seq![','] + enc_plentry(s[0])
            + enc_plentries_tail(s.skip(1).take(i)));
        assert(enc_plentries_tail(s.take(i)) == seq![','] + enc_plentry(s[0]) + enc_plentries_tail(
            s.skip(1).take(i - 1),
        ));
        assert(seq![','] + enc_plentry(s[0]) + (enc_plentries_tail(s.skip(1).take(i - 1))
            + seq![','] + enc_plentry(s[i])) =~= (seq![','] + enc_plentry(s[0])
            + enc_plentries_tail(s.skip(1).take(i - 1))) + seq![','] + enc_plentry(s[i]));
    }
}

} // verus!
