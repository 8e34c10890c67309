//! The tokenizer: whitespace is stripped from the input, what remains is
//! split on the structural characters `(`, `)` and `,`, and the empty pieces
//! between adjacent delimiters are dropped. Tokenizing is total: every
//! string yields a (possibly empty) token sequence, and no token shape is
//! checked here — that is the evaluator's business.

use vstd::prelude::*;
use vstd::string::StrSliceExecFns;
use vstd::string::StringExecFns;

verus! {

/// The characters with the Unicode `White_Space` property, as the standard
/// library's `char::is_whitespace` recognises them.
pub open spec fn is_ws_char(c: char) -> bool {
    ||| c == '\u{0009}'
    ||| c == '\u{000A}'
    ||| c == '\u{000B}'
    ||| c == '\u{000C}'
    ||| c == '\u{000D}'
    ||| c == ' '
    ||| c == '\u{0085}'
    ||| c == '\u{00A0}'
    ||| c == '\u{1680}'
    ||| c == '\u{2000}'
    ||| c == '\u{2001}'
    ||| c == '\u{2002}'
    ||| c == '\u{2003}'
    ||| c == '\u{2004}'
    ||| c == '\u{2005}'
    ||| c == '\u{2006}'
    ||| c == '\u{2007}'
    ||| c == '\u{2008}'
    ||| c == '\u{2009}'
    ||| c == '\u{200A}'
    ||| c == '\u{2028}'
    ||| c == '\u{2029}'
    ||| c == '\u{202F}'
    ||| c == '\u{205F}'
    ||| c == '\u{3000}'
}

/// The structural characters that group arguments and are discarded.
pub open spec fn is_delim_char(c: char) -> bool {
    c == '(' || c == ')' || c == ','
}

/// The input with every whitespace character removed.
pub open spec fn strip_ws(s: Seq<char>) -> Seq<char>
    decreases s.len(),
{
    if s.len() == 0 {
        Seq::empty()
    } else if is_ws_char(s.last()) {
        strip_ws(s.drop_last())
    } else {
        strip_ws(s.drop_last()).push(s.last())
    }
}

/// Splitting an already whitespace-free text on delimiters, with `cur` the
/// piece gathered so far: delimiters close the current piece, empty pieces
/// are dropped, and any other character extends the current piece.
pub open spec fn split_acc(s: Seq<char>, cur: Seq<char>) -> Seq<Seq<char>>
    decreases s.len(),
{
    if s.len() == 0 {
        if cur.len() == 0 {
            Seq::empty()
        } else {
            seq![cur]
        }
    } else if is_delim_char(s.first()) {
        if cur.len() == 0 {
            split_acc(s.drop_first(), Seq::empty())
        } else {
            seq![cur] + split_acc(s.drop_first(), Seq::empty())
        }
    } else {
        split_acc(s.drop_first(), cur.push(s.first()))
    }
}

/// The token sequence of an input, in textual order.
pub open spec fn tokens_of(s: Seq<char>) -> Seq<Seq<char>> {
    split_acc(strip_ws(s), Seq::empty())
}

/// The texts of a sequence of owned strings.
pub open spec fn token_views(ts: Seq<String>) -> Seq<Seq<char>> {
    ts.map_values(|t: String| t@)
}

/// Removing whitespace is idempotent: a whitespace-free text is unchanged.
pub proof fn lemma_strip_ws_idempotent(s: Seq<char>)
    ensures
        strip_ws(strip_ws(s)) == strip_ws(s),
    decreases s.len(),
{
    if s.len() == 0 {
    } else {
        lemma_strip_ws_idempotent(s.drop_last());
        if !is_ws_char(s.last()) {
            let t = strip_ws(s.drop_last()).push(s.last());
            assert(t.drop_last() =~= strip_ws(s.drop_last()));
            assert(t.last() == s.last());
            assert(t.len() > 0);
        }
    }
}

/// A text without whitespace is left unchanged by whitespace removal.
pub proof fn lemma_strip_ws_ws_free(s: Seq<char>)
    requires
        forall|k: int| 0 <= k < s.len() ==> !is_ws_char(s[k]),
    ensures
        strip_ws(s) == s,
    decreases s.len(),
{
    if s.len() == 0 {
        assert(strip_ws(s) =~= s);
    } else {
        lemma_strip_ws_ws_free(s.drop_last());
        assert(strip_ws(s.drop_last()).push(s.last()) =~= s);
    }
}

/// Splitting a text that starts with a delimiter-free piece gathers that
/// piece onto the current one.
pub proof fn lemma_split_acc_piece(piece: Seq<char>, rest: Seq<char>, cur: Seq<char>)
    requires
        forall|k: int| 0 <= k < piece.len() ==> !is_delim_char(piece[k]),
    ensures
        split_acc(piece + rest, cur) == split_acc(rest, cur + piece),
    decreases piece.len(),
{
    if piece.len() == 0 {
        assert(piece + rest =~= rest);
        assert(cur + piece =~= cur);
    } else {
        let whole = piece + rest;
        assert(whole.len() > 0);
        assert(whole.first() == piece[0]);
        assert(whole.drop_first() =~= piece.drop_first() + rest);
        lemma_split_acc_piece(piece.drop_first(), rest, cur.push(piece[0]));
        assert(cur.push(piece[0]) + piece.drop_first() =~= cur + piece);
    }
}

/// Splitting a text that starts with a delimiter closes the current piece:
/// it is emitted when it is non-empty and dropped otherwise.
pub proof fn lemma_split_acc_delim(d: char, rest: Seq<char>, cur: Seq<char>)
    requires
        is_delim_char(d),
    ensures
        cur.len() == 0 ==> split_acc(seq![d] + rest, cur) == split_acc(rest, Seq::<char>::empty()),
        cur.len() > 0 ==> split_acc(seq![d] + rest, cur) == seq![cur] + split_acc(
            rest,
            Seq::<char>::empty(),
        ),
{
    let whole = seq![d] + rest;
    assert(whole.len() > 0);
    assert(whole.first() == d);
    assert(whole.drop_first() =~= rest);
}

/// The token sequence of one operator application written without
/// whitespace, `name(first,second)`: the name and the two argument texts,
/// in textual order.
pub proof fn lemma_tokens_of_application(name: Seq<char>, a1: Seq<char>, a2: Seq<char>)
    requires
        name.len() > 0,
        a1.len() > 0,
        a2.len() > 0,
        forall|k: int|
            0 <= k < name.len() ==> !is_ws_char(name[k]) && !is_delim_char(name[k]),
        forall|k: int| 0 <= k < a1.len() ==> !is_ws_char(a1[k]) && !is_delim_char(a1[k]),
        forall|k: int| 0 <= k < a2.len() ==> !is_ws_char(a2[k]) && !is_delim_char(a2[k]),
    ensures
        tokens_of(name + seq!['('] + a1 + seq![','] + a2 + seq![')']) == seq![name, a1, a2],
{
    let input = name + seq!['('] + a1 + seq![','] + a2 + seq![')'];
    let tail_close = seq![')'] + Seq::<char>::empty();
    let rest4 = a2 + tail_close;
    let rest3 = seq![','] + rest4;
    let rest2 = a1 + rest3;
    let rest1 = seq!['('] + rest2;
    assert(!is_ws_char('(') && !is_ws_char(',') && !is_ws_char(')'));
    assert(forall|k: int| 0 <= k < input.len() ==> !is_ws_char(input[k]));
    lemma_strip_ws_ws_free(input);
    assert(input =~= name + rest1);
    lemma_split_acc_piece(name, rest1, Seq::<char>::empty());
    assert(Seq::<char>::empty() + name =~= name);
    lemma_split_acc_delim('(', rest2, name);
    lemma_split_acc_piece(a1, rest3, Seq::<char>::empty());
    assert(Seq::<char>::empty() + a1 =~= a1);
    lemma_split_acc_delim(',', rest4, a1);
    lemma_split_acc_piece(a2, tail_close, Seq::<char>::empty());
    assert(Seq::<char>::empty() + a2 =~= a2);
    lemma_split_acc_delim(')', Seq::<char>::empty(), a2);
    assert(split_acc(Seq::<char>::empty(), Seq::<char>::empty())
        == Seq::<Seq<char>>::empty());
    assert(seq![name] + (seq![a1] + (seq![a2] + Seq::<Seq<char>>::empty())) =~= seq![
        name,
        a1,
        a2,
    ]);
}

/// A piece without whitespace or delimiters, in a text that continues with a
/// delimiter, becomes one token: a convenience combining the two splitting
/// lemmas above.
proof fn lemma_split_piece_then_delim(piece: Seq<char>, d: char, rest: Seq<char>)
    requires
        piece.len() > 0,
        is_delim_char(d),
        forall|k: int| 0 <= k < piece.len() ==> !is_delim_char(piece[k]),
    ensures
        split_acc(piece + (seq![d] + rest), Seq::<char>::empty()) == seq![piece] + split_acc(
            rest,
            Seq::<char>::empty(),
        ),
{
    lemma_split_acc_piece(piece, seq![d] + rest, Seq::<char>::empty());
    assert(Seq::<char>::empty() + piece =~= piece);
    lemma_split_acc_delim(d, rest, piece);
}

/// The token sequence of one application to a single argument written
/// without whitespace, `name(x)`: the two meaningful pieces, in order.
pub proof fn lemma_tokens_of_unary_application(name: Seq<char>, x: Seq<char>)
    requires
        name.len() > 0,
        x.len() > 0,
        forall|k: int|
            0 <= k < name.len() ==> !is_ws_char(name[k]) && !is_delim_char(name[k]),
        forall|k: int| 0 <= k < x.len() ==> !is_ws_char(x[k]) && !is_delim_char(x[k]),
    ensures
        tokens_of(name + seq!['('] + x + seq![')']) == seq![name, x],
{
    let input = name + seq!['('] + x + seq![')'];
    let r3 = seq![')'] + Seq::<char>::empty();
    let r2 = x + r3;
    let r1 = seq!['('] + r2;
    assert(!is_ws_char('(') && !is_ws_char(')'));
    assert(forall|k: int| 0 <= k < input.len() ==> !is_ws_char(input[k]));
    lemma_strip_ws_ws_free(input);
    assert(input =~= name + r1);
    lemma_split_piece_then_delim(name, '(', r2);
    assert(name + r1 =~= name + (seq!['('] + r2));
    lemma_split_piece_then_delim(x, ')', Seq::<char>::empty());
    assert(r2 =~= x + (seq![')'] + Seq::<char>::empty()));
    assert(split_acc(Seq::<char>::empty(), Seq::<char>::empty())
        == Seq::<Seq<char>>::empty());
    assert(seq![name] + (seq![x] + Seq::<Seq<char>>::empty()) =~= seq![name, x]);
}

/// The token sequence of a nested application written without whitespace,
/// `op1(x,op2(y,z))`: the five meaningful pieces, in textual order.
pub proof fn lemma_tokens_of_nested_right(
    op1: Seq<char>,
    x: Seq<char>,
    op2: Seq<char>,
    y: Seq<char>,
    z: Seq<char>,
)
    requires
        op1.len() > 0,
        x.len() > 0,
        op2.len() > 0,
        y.len() > 0,
        z.len() > 0,
        forall|k: int| 0 <= k < op1.len() ==> !is_ws_char(op1[k]) && !is_delim_char(op1[k]),
        forall|k: int| 0 <= k < x.len() ==> !is_ws_char(x[k]) && !is_delim_char(x[k]),
        forall|k: int| 0 <= k < op2.len() ==> !is_ws_char(op2[k]) && !is_delim_char(op2[k]),
        forall|k: int| 0 <= k < y.len() ==> !is_ws_char(y[k]) && !is_delim_char(y[k]),
        forall|k: int| 0 <= k < z.len() ==> !is_ws_char(z[k]) && !is_delim_char(z[k]),
    ensures
        tokens_of(
            op1 + seq!['('] + x + seq![','] + op2 + seq!['('] + y + seq![','] + z + seq![')']
                + seq![')'],
        ) == seq![op1, x, op2, y, z],
{
    let input = op1 + seq!['('] + x + seq![','] + op2 + seq!['('] + y + seq![','] + z + seq![')']
        + seq![')'];
    let r10 = seq![')'] + Seq::<char>::empty();
    let r9 = seq![')'] + r10;
    let r8 = z + r9;
    let r7 = seq![','] + r8;
    let r6 = y + r7;
    let r5 = seq!['('] + r6;
    let r4 = op2 + r5;
    let r3 = seq![','] + r4;
    let r2 = x + r3;
    let r1 = seq!['('] + r2;
    assert(!is_ws_char('(') && !is_ws_char(',') && !is_ws_char(')'));
    assert(forall|k: int| 0 <= k < input.len() ==> !is_ws_char(input[k]));
    lemma_strip_ws_ws_free(input);
    assert(input =~= op1 + r1);
    lemma_split_piece_then_delim(op1, '(', r2);
    assert(op1 + r1 =~= op1 + (seq!['('] + r2));
    lemma_split_piece_then_delim(x, ',', r4);
    assert(r2 =~= x + (seq![','] + r4));
    lemma_split_piece_then_delim(op2, '(', r6);
    assert(r4 =~= op2 + (seq!['('] + r6));
    lemma_split_piece_then_delim(y, ',', r8);
    assert(r6 =~= y + (seq![','] + r8));
    lemma_split_piece_then_delim(z, ')', r10);
    assert(r8 =~= z + (seq![')'] + r10));
    lemma_split_acc_delim(')', Seq::<char>::empty(), Seq::<char>::empty());
    assert(r10 =~= seq![')'] + Seq::<char>::empty());
    assert(split_acc(Seq::<char>::empty(), Seq::<char>::empty())
        == Seq::<Seq<char>>::empty());
    assert(seq![op1] + (seq![x] + (seq![op2] + (seq![y] + (seq![z]
        + Seq::<Seq<char>>::empty())))) =~= seq![op1, x, op2, y, z]);
}

/// The token sequence of a nested application written without whitespace,
/// `op1(op2(y,z),x)`: the five meaningful pieces, in textual order.
pub proof fn lemma_tokens_of_nested_left(
    op1: Seq<char>,
    op2: Seq<char>,
    y: Seq<char>,
    z: Seq<char>,
    x: Seq<char>,
)
    requires
        op1.len() > 0,
        op2.len() > 0,
        y.len() > 0,
        z.len() > 0,
        x.len() > 0,
        forall|k: int| 0 <= k < op1.len() ==> !is_ws_char(op1[k]) && !is_delim_char(op1[k]),
        forall|k: int| 0 <= k < op2.len() ==> !is_ws_char(op2[k]) && !is_delim_char(op2[k]),
        forall|k: int| 0 <= k < y.len() ==> !is_ws_char(y[k]) && !is_delim_char(y[k]),
        forall|k: int| 0 <= k < z.len() ==> !is_ws_char(z[k]) && !is_delim_char(z[k]),
        forall|k: int| 0 <= k < x.len() ==> !is_ws_char(x[k]) && !is_delim_char(x[k]),
    ensures
        tokens_of(
            op1 + seq!['('] + op2 + seq!['('] + y + seq![','] + z + seq![')'] + seq![','] + x
                + seq![')'],
        ) == seq![op1, op2, y, z, x],
{
    let input = op1 + seq!['('] + op2 + seq!['('] + y + seq![','] + z + seq![')'] + seq![','] + x
        + seq![')'];
    let r10 = seq![')'] + Seq::<char>::empty();
    let r9 = x + r10;
    let r8 = seq![','] + r9;
    let r7 = seq![')'] + r8;
    let r6 = z + r7;
    let r5 = seq![','] + r6;
    let r4 = y + r5;
    let r3 = seq!['('] + r4;
    let r2 = op2 + r3;
    let r1 = seq!['('] + r2;
    assert(!is_ws_char('(') && !is_ws_char(',') && !is_ws_char(')'));
    assert(forall|k: int| 0 <= k < input.len() ==> !is_ws_char(input[k]));
    lemma_strip_ws_ws_free(input);
    assert(input =~= op1 + r1);
    lemma_split_piece_then_delim(op1, '(', r2);
    assert(op1 + r1 =~= op1 + (seq!['('] + r2));
    lemma_split_piece_then_delim(op2, '(', r4);
    assert(r2 =~= op2 + (seq!['('] + r4));
    lemma_split_piece_then_delim(y, ',', r6);
    assert(r4 =~= y + (seq![','] + r6));
    lemma_split_piece_then_delim(z, ')', r8);
    assert(r6 =~= z + (seq![')'] + r8));
    assert(r8 =~= seq![','] + r9);
    lemma_split_acc_delim(',', r9, Seq::<char>::empty());
    lemma_split_piece_then_delim(x, ')', Seq::<char>::empty());
    assert(r9 =~= x + (seq![')'] + Seq::<char>::empty()));
    assert(split_acc(Seq::<char>::empty(), Seq::<char>::empty())
        == Seq::<Seq<char>>::empty());
    assert(seq![op1] + (seq![op2] + (seq![y] + (seq![z] + (seq![x]
        + Seq::<Seq<char>>::empty())))) =~= seq![op1, op2, y, z, x]);
}

/// Whether `c` has the Unicode `White_Space` property.
pub fn is_ws(c: char) -> (r: bool)
    ensures
        r == is_ws_char(c),
{
    c == '\u{0009}' || c == '\u{000A}' || c == '\u{000B}' || c == '\u{000C}' || c == '\u{000D}'
        || c == ' ' || c == '\u{0085}' || c == '\u{00A0}' || c == '\u{1680}' || c == '\u{2000}'
        || c == '\u{2001}' || c == '\u{2002}' || c == '\u{2003}' || c == '\u{2004}'
        || c == '\u{2005}' || c == '\u{2006}' || c == '\u{2007}' || c == '\u{2008}'
        || c == '\u{2009}' || c == '\u{200A}' || c == '\u{2028}' || c == '\u{2029}'
        || c == '\u{202F}' || c == '\u{205F}' || c == '\u{3000}'
}

/// Whether `c` is one of the structural characters `(`, `)`, `,`.
pub fn is_delim(c: char) -> (r: bool)
    ensures
        r == is_delim_char(c),
{
    c == '(' || c == ')' || c == ','
}

/// Strip whitespace, split on delimiters, drop empty pieces: the token
/// sequence of `input`, in textual order.
pub fn tokenize(input: &str) -> (tokens: Vec<String>)
    ensures
        token_views(tokens@) == tokens_of(input@),
{
    let n = input.unicode_len();
    let mut cleaned: String = String::new();
    let mut i: usize = 0;
    while i < n
        invariant
            n == input@.len(),
            i <= n,
            cleaned@ == strip_ws(input@.take(i as int)),
        decreases n - i,
    {
        let c = input.get_char(i);
        if !is_ws(c) {
            let piece = input.substring_char(i, i + 1);
            proof {
                assert(piece@ =~= seq![input@[i as int]]);
            }
            cleaned.append(piece);
        }
        proof {
            let pre = input@.take(i as int + 1);
            assert(pre.len() == i + 1);
            assert(pre.drop_last() =~= input@.take(i as int));
            assert(pre.last() == input@[i as int]);
            assert(strip_ws(pre) == if !is_ws_char(input@[i as int]) {
                strip_ws(input@.take(i as int)).push(input@[i as int])
            } else {
                strip_ws(input@.take(i as int))
            });
            assert(cleaned@ =~= strip_ws(pre));
        }
        i = i + 1;
    }
    proof {
        assert(input@.take(n as int) =~= input@);
    }

    let m = cleaned.unicode_len();
    let mut tokens: Vec<String> = Vec::new();
    let mut cur: String = String::new();
    proof {
        assert(cleaned@.skip(0) =~= cleaned@);
        assert(cur@ =~= Seq::<char>::empty());
        assert(tokens_of(input@) =~= token_views(tokens@) + split_acc(cleaned@.skip(0), cur@));
    }
    let mut j: usize = 0;
    while j < m
        invariant
            m == cleaned@.len(),
            j <= m,
            cleaned@ == strip_ws(input@),
            tokens_of(input@) == token_views(tokens@) + split_acc(
                cleaned@.skip(j as int),
                cur@,
            ),
        decreases m - j,
    {
        let ghost rest = cleaned@.skip(j as int);
        proof {
            assert(rest.drop_first() =~= cleaned@.skip(j as int + 1));
            assert(rest.first() == cleaned@[j as int]);
        }
        let c = cleaned.as_str().get_char(j);
        if is_delim(c) {
            if cur.unicode_len() > 0 {
                proof {
                    assert(split_acc(rest, cur@) == seq![cur@] + split_acc(
                        cleaned@.skip(j as int + 1),
                        Seq::<char>::empty(),
                    ));
                }
                let ghost old_views = token_views(tokens@);
                let ghost cur_view = cur@;
                tokens.push(cur);
                cur = String::new();
                proof {
                    assert(token_views(tokens@) =~= old_views + seq![cur_view]);
                    assert(cur@ =~= Seq::<char>::empty());
                    assert((old_views + seq![cur_view]) + split_acc(
                        cleaned@.skip(j as int + 1),
                        cur@,
                    ) =~= old_views + (seq![cur_view] + split_acc(
                        cleaned@.skip(j as int + 1),
                        cur@,
                    )));
                }
            } else {
                proof {
                    assert(cur@ =~= Seq::<char>::empty());
                    assert(split_acc(rest, cur@) == split_acc(
                        cleaned@.skip(j as int + 1),
                        cur@,
                    ));
                }
            }
        } else {
            let piece = cleaned.as_str().substring_char(j, j + 1);
            proof {
                assert(piece@ =~= seq![cleaned@[j as int]]);
            }
            let ghost cur_view = cur@;
            cur.append(piece);
            proof {
                assert(cur@ =~= cur_view.push(cleaned@[j as int]));
                assert(split_acc(rest, cur_view) == split_acc(cleaned@.skip(j as int + 1), cur@));
            }
        }
        j = j + 1;
    }
    proof {
        assert(cleaned@.skip(m as int) =~= Seq::<char>::empty());
    }
    if cur.unicode_len() > 0 {
        let ghost old_views = token_views(tokens@);
        let ghost cur_view = cur@;
        tokens.push(cur);
        proof {
            assert(split_acc(Seq::<char>::empty(), cur_view) == seq![cur_view]);
            assert(token_views(tokens@) =~= old_views + seq![cur_view]);
        }
    } else {
        proof {
            assert(cur@ =~= Seq::<char>::empty());
            assert(split_acc(Seq::<char>::empty(), cur@) =~= Seq::<Seq<char>>::empty());
            assert(token_views(tokens@) + Seq::<Seq<char>>::empty() =~= token_views(tokens@));
        }
    }
    tokens
}

} // verus!
