use vstd::prelude::*;

verus! {

/// How one character is written inside a Rust string literal: a backslash,
/// a double quote and a carriage return are escaped; every other character
/// stands for itself.
pub open spec fn escaped_char(c: char) -> Seq<char> {
    if c == '\\' {
        seq!['\\', '\\']
    } else if c == '"' {
        seq!['\\', '"']
    } else if c == '\r' {
        seq!['\\', 'r']
    } else {
        seq![c]
    }
}

/// The body of a Rust string literal (what stands between its quotes) whose
/// value is `s`.
pub open spec fn escaped(s: Seq<char>) -> Seq<char>
    decreases s.len(),
{
    if s.len() == 0 {
        Seq::empty()
    } else {
        escaped(s.drop_last()) + escaped_char(s.last())
    }
}

/// The character that the escape `\c` stands for (for the escapes that
/// `escaped` writes, and the common others).
pub open spec fn unescaped_char(c: char) -> char {
    if c == 'r' {
        '\r'
    } else if c == 'n' {
        '\n'
    } else if c == 't' {
        '\t'
    } else if c == '0' {
        '\0'
    } else {
        c
    }
}

/// Whether `t` can stand between the quotes of a Rust string literal: no
/// bare double quote or carriage return, and every backslash starts one of
/// the escapes `\\`, `\"`, `\r`.
pub open spec fn is_literal_body(t: Seq<char>) -> bool
    decreases t.len(),
{
    if t.len() == 0 {
        true
    } else if t[0] == '\\' {
        t.len() >= 2 && (t[1] == '\\' || t[1] == '"' || t[1] == 'r') && is_literal_body(t.skip(2))
    } else if t[0] == '"' || t[0] == '\r' {
        false
    } else {
        is_literal_body(t.skip(1))
    }
}

/// The value of a Rust string literal whose body is `t`.
pub open spec fn literal_value(t: Seq<char>) -> Seq<char>
    decreases t.len(),
{
    if t.len() == 0 {
        Seq::empty()
    } else if t[0] == '\\' && t.len() >= 2 {
        seq![unescaped_char(t[1])] + literal_value(t.skip(2))
    } else {
        seq![t[0]] + literal_value(t.skip(1))
    }
}

proof fn lemma_escaped_concat(a: Seq<char>, b: Seq<char>)
    ensures
        escaped(a + b) == escaped(a) + escaped(b),
    decreases b.len(),
{
    if b.len() == 0 {
        assert(a + b =~= a);
        assert(escaped(b) =~= Seq::<char>::empty());
        assert(escaped(a) + escaped(b) =~= escaped(a));
    } else {
        assert((a + b).drop_last() =~= a + b.drop_last());
        assert((a + b).last() == b.last());
        lemma_escaped_concat(a, b.drop_last());
        assert(escaped(a + b) =~= escaped(a) + escaped(b));
    }
}

proof fn lemma_escaped_front(s: Seq<char>)
    requires
        s.len() > 0,
    ensures
        escaped(s) == escaped_char(s[0]) + escaped(s.skip(1)),
{
    assert(s =~= seq![s[0]] + s.skip(1));
    lemma_escaped_concat(seq![s[0]], s.skip(1));
    assert(seq![s[0]].drop_last() =~= Seq::<char>::empty());
    assert(escaped(Seq::<char>::empty()) =~= Seq::<char>::empty());
    assert(seq![s[0]].last() == s[0]);
    assert(escaped(seq![s[0]]) =~= escaped_char(s[0]));
}

/// The escaped text is a well-formed literal body, and the literal's value
/// is the original text: the literal denotes exactly `s`.
pub proof fn lemma_escaped_denotes(s: Seq<char>)
    ensures
        is_literal_body(escaped(s)),
        literal_value(escaped(s)) == s,
    decreases s.len(),
{
    if s.len() == 0 {
        assert(escaped(s) =~= Seq::<char>::empty());
    } else {
        let rest = s.skip(1);
        lemma_escaped_front(s);
        lemma_escaped_denotes(rest);
        let e = escaped_char(s[0]);
        let t = escaped(s);
        assert(t == e + escaped(rest));
        if e.len() == 2 {
            assert(t.skip(2) =~= escaped(rest));
            assert(t[0] == e[0] && t[1] == e[1]);
        } else {
            assert(t.skip(1) =~= escaped(rest));
            assert(t[0] == s[0]);
        }
        assert(s =~= seq![s[0]] + rest);
    }
}

/// Appends the literal body for `s` to `out`.
pub fn push_escaped(out: &mut String, s: &str)
    ensures
        final(out)@ == old(out)@ + escaped(s@),
{
    let n = s.unicode_len();
    let mut i: usize = 0;
    while i < n
        invariant
            n == s@.len(),
            i <= n,
            out@ == old(out)@ + escaped(s@.take(i as int)),
        decreases n - i,
    {
        let c = s.get_char(i);
        let ghost prev = out@;
        if c == '\\' {
            let lit = "\\\\";
            proof {
                reveal_strlit("\\\\");
            }
            assert(lit@ =~= seq!['\\', '\\']);
            out.append(lit);
        } else if c == '"' {
            let lit = "\\\"";
            proof {
                reveal_strlit("\\\"");
            }
            assert(lit@ =~= seq!['\\', '"']);
            out.append(lit);
        } else if c == '\r' {
            let lit = "\\r";
            proof {
                reveal_strlit("\\r");
            }
            assert(lit@ =~= seq!['\\', 'r']);
            out.append(lit);
        } else {
            let one = s.substring_char(i, i + 1);
            assert(one@ =~= seq![c]);
            out.append(one);
        }
        proof {
            let t = s@.take(i + 1);
            assert(t.drop_last() =~= s@.take(i as int));
            assert(t.last() == c);
            assert(out@ =~= prev + escaped_char(c));
        }
        i = i + 1;
    }
    assert(s@.take(n as int) =~= s@);
}

} // verus!
