//! Message templates: numbers collapsed to a placeholder.
use vstd::prelude::*;
use vstd::std_specs::iter::IteratorSpec;

verus! {

/// Characters with the Unicode `White_Space` property.
pub open spec fn is_white_space(c: char) -> bool {
    ('\u{9}' <= c && c <= '\u{d}') || c == ' ' || c == '\u{85}' || c == '\u{a0}' || c == '\u{1680}'
        || ('\u{2000}' <= c && c <= '\u{200a}') || c == '\u{2028}' || c == '\u{2029}' || c
        == '\u{202f}' || c == '\u{205f}' || c == '\u{3000}'
}

/// Whether `c` has the Unicode `White_Space` property.
pub fn white_space(c: char) -> (r: bool)
    ensures
        r == is_white_space(c),
{
    ('\u{9}' <= c && c <= '\u{d}') || c == ' ' || c == '\u{85}' || c == '\u{a0}' || c == '\u{1680}'
        || ('\u{2000}' <= c && c <= '\u{200a}') || c == '\u{2028}' || c == '\u{2029}' || c
        == '\u{202f}' || c == '\u{205f}' || c == '\u{3000}'
}

/// The whitespace-separated tokens of `cur + s`, where `cur` is a token in progress.
pub open spec fn tokens_from(s: Seq<char>, cur: Seq<char>) -> Seq<Seq<char>>
    decreases s.len(),
{
    if s.len() == 0 {
        if cur.len() > 0 {
            seq![cur]
        } else {
            seq![]
        }
    } else if is_white_space(s[0]) {
        (if cur.len() > 0 {
            seq![cur]
        } else {
            seq![]
        }) + tokens_from(s.drop_first(), seq![])
    } else {
        tokens_from(s.drop_first(), cur.push(s[0]))
    }
}

/// The maximal runs of non-whitespace characters of `s`, in order.
pub open spec fn tokens(s: Seq<char>) -> Seq<Seq<char>> {
    tokens_from(s, seq![])
}

/// Every character of `t` is a decimal digit.
pub open spec fn all_digits(t: Seq<char>) -> bool {
    forall|i: int| 0 <= i < t.len() ==> '0' <= #[trigger] t[i] && t[i] <= '9'
}

/// A token as it stands in a template: `#` for a number, else itself.
pub open spec fn template_token(t: Seq<char>) -> Seq<char> {
    if all_digits(t) {
        seq!['#']
    } else {
        t
    }
}

/// The tokens joined by single spaces.
pub open spec fn join_spaced(ts: Seq<Seq<char>>) -> Seq<char>
    decreases ts.len(),
{
    if ts.len() == 0 {
        seq![]
    } else if ts.len() == 1 {
        ts[0]
    } else {
        join_spaced(ts.drop_last()) + seq![' '] + ts.last()
    }
}

/// The template of a message: its tokens, numbers replaced by `#`, joined by
/// single spaces.
pub open spec fn template(s: Seq<char>) -> Seq<char> {
    join_spaced(tokens(s).map_values(|t: Seq<char>| template_token(t)))
}

/// Relies on `String::push`: appends one character.
#[verifier::external_body]
fn push_char(s: &mut String, c: char)
    ensures
        final(s)@ == old(s)@.push(c),
{
    s.push(c)
}

proof fn lemma_tokens_step(s: Seq<char>, i: int, cur: Seq<char>)
    requires
        0 <= i < s.len(),
    ensures
        tokens_from(s.skip(i), cur) == if is_white_space(s[i]) {
            (if cur.len() > 0 {
                seq![cur]
            } else {
                seq![]
            }) + tokens_from(s.skip(i + 1), seq![])
        } else {
            tokens_from(s.skip(i + 1), cur.push(s[i]))
        },
{
    assert(s.skip(i).drop_first() =~= s.skip(i + 1));
    assert(s.skip(i)[0] == s[i]);
}

proof fn lemma_join_push(ts: Seq<Seq<char>>, t: Seq<char>)
    ensures
        join_spaced(ts.push(t)) == if ts.len() == 0 {
            t
        } else {
            join_spaced(ts) + seq![' '] + t
        },
{
    assert(ts.push(t).drop_last() =~= ts);
}

/// Appends the template form of token `tok` to `out`, the template of `done`.
fn flush_token(out: &mut String, tok: &String, digits: bool, first: bool, done: Ghost<Seq<Seq<char>>>)
    requires
        first == (done@.len() == 0),
        old(out)@ == join_spaced(done@.map_values(|t: Seq<char>| template_token(t))),
        digits == all_digits(tok@),
    ensures
        final(out)@ == join_spaced(
            done@.push(tok@).map_values(|t: Seq<char>| template_token(t)),
        ),
{
    let ghost mapped = done@.map_values(|t: Seq<char>| template_token(t));
    proof {
        assert(done@.push(tok@).map_values(|t: Seq<char>| template_token(t)) =~= mapped.push(
            template_token(tok@),
        ));
        lemma_join_push(mapped, template_token(tok@));
    }
    if !first {
        push_char(out, ' ');
    }
    if digits {
        push_char(out, '#');
    } else {
        out.append(tok.as_str());
    }
    proof {
        if digits {
            assert(template_token(tok@) =~= seq!['#']);
        }
    }
}

/// The template of `message`: its whitespace-separated tokens, each token made
/// only of decimal digits replaced by `#`, joined by single spaces.
pub fn message_template(message: &str) -> (r: String)
    ensures
        r@ == template(message@),
{
    let ghost s = message@;
    let mut out = String::new();
    let mut cur = String::new();
    let mut digits = true;
    let mut first = true;
    let ghost mut done: Seq<Seq<char>> = seq![];
    let mut chars = message.chars();
    proof {
        broadcast use vstd::string::group_string_axioms;
        assert(chars.remaining() == s);
    }
    let ghost mut i: int = 0;
    let mut next = chars.next();
    proof {
        broadcast use vstd::string::group_string_axioms;
        assert(s.skip(0) =~= s);
        assert(done.map_values(|t: Seq<char>| template_token(t)) =~= seq![]);
    }
    while next.is_some()
        invariant
            s == message@,
            0 <= i <= s.len(),
            chars.obeys_prophetic_iter_laws(),
            next matches Some(c) ==> i < s.len() && s[i] == c && chars.remaining() == s.skip(i + 1),
            next is None ==> i == s.len(),
            tokens(s) == done + tokens_from(s.skip(i), cur@),
            out@ == join_spaced(done.map_values(|t: Seq<char>| template_token(t))),
            digits == all_digits(cur@),
            first == (done.len() == 0),
        decreases s.len() - i,
    {
        let c = next.unwrap();
        proof {
            lemma_tokens_step(s, i, cur@);
        }
        if white_space(c) {
            if !cur.as_str().is_empty() {
                flush_token(&mut out, &cur, digits, first, Ghost(done));
                proof {
                    assert(done + (seq![cur@] + tokens_from(s.skip(i + 1), seq![])) =~= done.push(cur@)
                        + tokens_from(s.skip(i + 1), seq![]));
                    done = done.push(cur@);
                }
                first = false;
            } else {
                proof {
                    assert(done + (seq![] + tokens_from(s.skip(i + 1), seq![])) =~= done
                        + tokens_from(s.skip(i + 1), seq![]));
                }
            }
            cur = String::new();
            digits = true;
            proof {
                assert(cur@ =~= seq![]);
            }
        } else {
            let ghost before = cur@;
            push_char(&mut cur, c);
            digits = digits && '0' <= c && c <= '9';
            proof {
                if digits {
                    assert(all_digits(cur@)) by {
                        assert forall|k: int| 0 <= k < cur@.len() implies '0' <= #[trigger] cur@[k] && cur@[k] <= '9' by {
                            if k < before.len() {
                                assert(cur@[k] == before[k]);
                            }
                        }
                    }
                } else {
                    if all_digits(before) {
                        assert(cur@[before.len() as int] == c);
                    } else {
                        let k = choose|k: int| 0 <= k < before.len() && !('0' <= #[trigger] before[k] && before[k] <= '9');
                        assert(cur@[k] == before[k]);
                    }
                }
            }
        }
        next = chars.next();
        proof {
            i = i + 1;
        }
        proof {
            broadcast use vstd::string::group_string_axioms;
            if i < s.len() {
                assert(s.skip(i).drop_first() =~= s.skip(i + 1));
                assert(s.skip(i)[0] == s[i]);
            }
        }
    }
    let ghost n = i;
    if !cur.as_str().is_empty() {
        flush_token(&mut out, &cur, digits, first, Ghost(done));
        proof {
            assert(s.skip(n) =~= seq![]);
            assert(tokens(s) =~= done.push(cur@));
        }
    } else {
        proof {
            assert(s.skip(n) =~= seq![]);
            assert(tokens(s) =~= done);
        }
    }
    out
}

} // verus!
