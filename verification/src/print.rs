//! Indentation of multi-line text for value printing.
//!
//! The printer itself — picking a colour for a value's kind and writing to a
//! stream — is host-side output; what it needs from the library is the
//! indentation of the rendered text, which is pure string work and lives
//! here.

use vstd::prelude::*;

verus! {

/// The two-space indentation unit, repeated `indents` times.
pub open spec fn pad(indents: nat) -> Seq<char> {
    Seq::new(2 * indents, |i: int| ' ')
}

pub open spec fn has_newline(s: Seq<char>) -> bool {
    exists|i: int| 0 <= i < s.len() && s[i] == '\n'
}

/// `s` with `p` inserted after every newline.
pub open spec fn indented(s: Seq<char>, p: Seq<char>) -> Seq<char>
    decreases s.len(),
{
    if s.len() == 0 {
        Seq::empty()
    } else if s[0] == '\n' {
        seq!['\n'] + p + indented(s.drop_first(), p)
    } else {
        seq![s[0]] + indented(s.drop_first(), p)
    }
}

/// What `indent` returns: text without a newline passes through unchanged —
/// even when an initial indent is asked for — and multi-line text has the
/// indentation unit inserted after every newline, and put in front as well
/// when `initial` is set.
pub open spec fn indent_spec(s: Seq<char>, indents: nat, initial: bool) -> Seq<char> {
    if has_newline(s) {
        if initial {
            pad(indents) + indented(s, pad(indents))
        } else {
            indented(s, pad(indents))
        }
    } else {
        s
    }
}

/// Indents every line of `string` after a newline by `indents` two-space
/// units, and the first line as well when `initial` is set; a single-line
/// string comes back unchanged.
pub fn indent(string: &str, indents: usize, initial: bool) -> (r: String)
    ensures
        r@ == indent_spec(string@, indents as nat, initial),
{
    let n = string.unicode_len();
    let mut has_nl = false;
    for i in 0..n
        invariant
            n == string@.len(),
            has_nl == exists|j: int| 0 <= j < i && string@[j] == '\n',
    {
        if string.get_char(i) == '\n' {
            has_nl = true;
        }
    }
    if !has_nl {
        assert(!has_newline(string@));
        return string.to_owned();
    }
    assert(has_newline(string@));

    let mut padding = String::new();
    for k in 0..indents
        invariant
            padding@ == pad(k as nat),
    {
        padding.append("  ");
        proof {
            reveal_strlit("  ");
            assert(padding@ =~= pad((k + 1) as nat));
        }
    }

    let mut result = String::new();
    if initial {
        result.append(padding.as_str());
    }
    let ghost prefix: Seq<char> = if initial {
        pad(indents as nat)
    } else {
        Seq::empty()
    };
    assert(result@ =~= prefix + indented(string@.take(0), pad(indents as nat)));
    for i in 0..n
        invariant
            n == string@.len(),
            padding@ == pad(indents as nat),
            result@ == prefix + indented(string@.take(i as int), pad(indents as nat)),
    {
        let c = string.get_char(i);
        proof {
            assert(string@.take(i + 1) =~= string@.take(i as int).push(string@[i as int]));
            lemma_indented_push(string@.take(i as int), pad(indents as nat), string@[i as int]);
        }
        if c == '\n' {
            result.append("\n");
            result.append(padding.as_str());
            proof {
                reveal_strlit("\n");
                assert(result@ =~= prefix + indented(string@.take(i + 1), pad(indents as nat)));
            }
        } else {
            let piece = string.substring_char(i, i + 1);
            result.append(piece);
            proof {
                assert(piece@ =~= seq![string@[i as int]]);
                assert(result@ =~= prefix + indented(string@.take(i + 1), pad(indents as nat)));
            }
        }
    }
    assert(string@.take(n as int) =~= string@);
    result
}

/// Indenting one more character appends that character, or a newline followed
/// by the indentation unit.
proof fn lemma_indented_push(s: Seq<char>, p: Seq<char>, c: char)
    ensures
        indented(s.push(c), p) == indented(s, p) + (if c == '\n' {
            seq!['\n'] + p
        } else {
            seq![c]
        }),
    decreases s.len(),
{
    let tail: Seq<char> = if c == '\n' {
        seq!['\n'] + p
    } else {
        seq![c]
    };
    if s.len() == 0 {
        assert(s.push(c)[0] == c);
        assert(s.push(c).drop_first() =~= Seq::<char>::empty());
        assert(indented(Seq::<char>::empty(), p) == Seq::<char>::empty());
        assert(indented(s.push(c), p) == tail + Seq::<char>::empty());
        assert(tail + Seq::<char>::empty() =~= Seq::<char>::empty() + tail);
    } else {
        assert(s.push(c)[0] == s[0]);
        assert(s.push(c).drop_first() =~= s.drop_first().push(c));
        lemma_indented_push(s.drop_first(), p, c);
        assert(indented(s.push(c).drop_first(), p) == indented(s.drop_first(), p) + tail);
        if s[0] == '\n' {
            assert(indented(s.push(c), p) == seq!['\n'] + p + (indented(s.drop_first(), p)
                + tail));
            assert(indented(s, p) == seq!['\n'] + p + indented(s.drop_first(), p));
            assert(seq!['\n'] + p + (indented(s.drop_first(), p) + tail) =~= (seq!['\n'] + p
                + indented(s.drop_first(), p)) + tail);
        } else {
            assert(indented(s.push(c), p) == seq![s[0]] + (indented(s.drop_first(), p) + tail));
            assert(indented(s, p) == seq![s[0]] + indented(s.drop_first(), p));
            assert(seq![s[0]] + (indented(s.drop_first(), p) + tail) =~= (seq![s[0]]
                + indented(s.drop_first(), p)) + tail);
        }
    }
}

} // verus!
