use vstd::prelude::*;
use vstd::string::StrSliceExecFns;
use vstd::string::StringExecFns;

verus! {

/// Character-for-character equality of two string slices.
pub fn str_eq(a: &str, b: &str) -> (r: bool)
    ensures
        r == (a@ == b@),
{
    let la = a.unicode_len();
    let lb = b.unicode_len();
    if la != lb {
        proof {
            assert(a@ != b@);
        }
        return false;
    }
    let mut i: usize = 0;
    while i < la
        invariant
            la == a@.len(),
            la == b@.len(),
            i <= la,
            forall|j: int| 0 <= j < i ==> a@[j] == b@[j],
        decreases la - i,
    {
        if a.get_char(i) != b.get_char(i) {
            return false;
        }
        i = i + 1;
    }
    proof {
        assert(a@ =~= b@);
    }
    true
}

/// Lexicographic order over character sequences, comparing characters by
/// their code points; the order in which names are listed.
pub open spec fn lex_le(a: Seq<char>, b: Seq<char>) -> bool
    decreases a.len(),
{
    if a.len() == 0 {
        true
    } else if b.len() == 0 {
        false
    } else if a[0] == b[0] {
        lex_le(a.drop_first(), b.drop_first())
    } else {
        (a[0] as u32) < (b[0] as u32)
    }
}

/// Decides `lex_le` on two string slices.
pub fn str_le(a: &str, b: &str) -> (r: bool)
    ensures
        r == lex_le(a@, b@),
{
    let la = a.unicode_len();
    let lb = b.unicode_len();
    let mut i: usize = 0;
    proof {
        assert(a@.skip(0) =~= a@);
        assert(b@.skip(0) =~= b@);
    }
    loop
        invariant
            la == a@.len(),
            lb == b@.len(),
            i <= la,
            i <= lb,
            lex_le(a@, b@) == lex_le(a@.skip(i as int), b@.skip(i as int)),
        decreases la - i,
    {
        if i >= la {
            proof {
                assert(a@.skip(i as int).len() == 0);
            }
            return true;
        }
        if i >= lb {
            proof {
                assert(b@.skip(i as int).len() == 0);
                assert(a@.skip(i as int).len() > 0);
            }
            return false;
        }
        let ca = a.get_char(i);
        let cb = b.get_char(i);
        proof {
            assert(a@.skip(i as int)[0] == a@[i as int]);
            assert(b@.skip(i as int)[0] == b@[i as int]);
        }
        if ca != cb {
            return (ca as u32) < (cb as u32);
        }
        proof {
            assert(a@.skip(i as int).drop_first() =~= a@.skip(i + 1));
            assert(b@.skip(i as int).drop_first() =~= b@.skip(i + 1));
        }
        i = i + 1;
    }
}

/// `lex_le` is total: one of the two directions always holds.
pub proof fn lemma_lex_le_total(a: Seq<char>, b: Seq<char>)
    ensures
        lex_le(a, b) || lex_le(b, a),
    decreases a.len(),
{
    if a.len() == 0 {
    } else if b.len() == 0 {
    } else if a[0] == b[0] {
        lemma_lex_le_total(a.drop_first(), b.drop_first());
    } else {
        vstd::utf8::char_u32_cast(a[0], a[0] as u32);
        vstd::utf8::char_u32_cast(b[0], b[0] as u32);
        assert((a[0] as u32) != (b[0] as u32));
    }
}

/// `lex_le` is transitive.
pub proof fn lemma_lex_le_trans(a: Seq<char>, b: Seq<char>, c: Seq<char>)
    requires
        lex_le(a, b),
        lex_le(b, c),
    ensures
        lex_le(a, c),
    decreases a.len(),
{
    if a.len() == 0 {
    } else if c.len() == 0 {
        assert(b.len() > 0);
    } else {
        assert(b.len() > 0);
        if a[0] == b[0] && b[0] == c[0] {
            lemma_lex_le_trans(a.drop_first(), b.drop_first(), c.drop_first());
        }
    }
}

/// The given piece repeated `n` times.
pub open spec fn repeat_seq(s: Seq<char>, n: nat) -> Seq<char>
    decreases n,
{
    if n == 0 {
        Seq::empty()
    } else {
        repeat_seq(s, (n - 1) as nat) + s
    }
}

/// Builds the string holding `s` repeated `n` times.
pub fn repeat_str(s: &str, n: usize) -> (r: String)
    ensures
        r@ == repeat_seq(s@, n as nat),
{
    let mut out = String::new();
    let mut i: usize = 0;
    while i < n
        invariant
            i <= n,
            out@ == repeat_seq(s@, i as nat),
        decreases n - i,
    {
        out.append(s);
        i = i + 1;
    }
    out
}

/// `n` spaces.
pub open spec fn spaces(n: nat) -> Seq<char> {
    repeat_seq(" "@, n)
}

/// Every repetition of a one-character piece has length `n`.
pub proof fn lemma_repeat_len(s: Seq<char>, n: nat)
    ensures
        repeat_seq(s, n).len() == n * s.len(),
    decreases n,
{
    if n > 0 {
        let m = (n - 1) as nat;
        lemma_repeat_len(s, m);
        assert(repeat_seq(s, n) == repeat_seq(s, m) + s);
        assert(repeat_seq(s, n).len() == m * s.len() + s.len());
        assert(m * s.len() + s.len() == n * s.len()) by (nonlinear_arith)
            requires
                m + 1 == n,
        ;
    } else {
        assert(n * s.len() == 0) by (nonlinear_arith)
            requires
                n == 0,
        ;
    }
}

/// The text padded on the right with spaces up to width `w`; text longer
/// than `w` is left as it is.
pub open spec fn pad_right_spec(s: Seq<char>, w: nat) -> Seq<char> {
    if s.len() >= w {
        s
    } else {
        s + spaces((w - s.len()) as nat)
    }
}

/// The text padded on the left with spaces up to width `w`.
pub open spec fn pad_left_spec(s: Seq<char>, w: nat) -> Seq<char> {
    if s.len() >= w {
        s
    } else {
        spaces((w - s.len()) as nat) + s
    }
}

/// Appends `s` padded on the right to width `w` onto `out`.
pub fn append_pad_right(out: &mut String, s: &str, w: usize)
    ensures
        final(out)@ == old(out)@ + pad_right_spec(s@, w as nat),
{
    let l = s.unicode_len();
    out.append(s);
    if l < w {
        let pad = repeat_str(" ", w - l);
        out.append(pad.as_str());
    }
}

/// Appends `s` padded on the left to width `w` onto `out`.
pub fn append_pad_left(out: &mut String, s: &str, w: usize)
    ensures
        final(out)@ == old(out)@ + pad_left_spec(s@, w as nat),
{
    let l = s.unicode_len();
    if l < w {
        let pad = repeat_str(" ", w - l);
        out.append(pad.as_str());
    }
    out.append(s);
}

/// The character standing for one decimal digit.
pub open spec fn digit_char(d: int) -> char {
    if d == 0 {
        '0'
    } else if d == 1 {
        '1'
    } else if d == 2 {
        '2'
    } else if d == 3 {
        '3'
    } else if d == 4 {
        '4'
    } else if d == 5 {
        '5'
    } else if d == 6 {
        '6'
    } else if d == 7 {
        '7'
    } else if d == 8 {
        '8'
    } else {
        '9'
    }
}

/// The decimal numeral of a non-negative integer.
pub open spec fn dec_str(n: int) -> Seq<char>
    decreases n,
{
    if n < 10 {
        seq![digit_char(n)]
    } else {
        dec_str(n / 10).push(digit_char(n % 10))
    }
}

/// The double-quote character as a sequence.
pub open spec fn quote_mark() -> Seq<char> {
    "\""@
}

/// One decimal digit as a string slice.
pub(crate) fn digit_str(d: u64) -> (r: &'static str)
    requires
        d < 10,
    ensures
        r@ =~= seq![digit_char(d as int)],
{
    proof {
        reveal_strlit("0");
        reveal_strlit("1");
        reveal_strlit("2");
        reveal_strlit("3");
        reveal_strlit("4");
        reveal_strlit("5");
        reveal_strlit("6");
        reveal_strlit("7");
        reveal_strlit("8");
        reveal_strlit("9");
    }
    match d {
        0 => "0",
        1 => "1",
        2 => "2",
        3 => "3",
        4 => "4",
        5 => "5",
        6 => "6",
        7 => "7",
        8 => "8",
        _ => "9",
    }
}

/// Builds the decimal numeral of `n`.
pub fn u64_to_string(n: u64) -> (r: String)
    ensures
        r@ == dec_str(n as int),
    decreases n,
{
    if n < 10 {
        String::from_str(digit_str(n))
    } else {
        let mut s = u64_to_string(n / 10);
        s.append(digit_str(n % 10));
        proof {
            assert(s@ =~= dec_str(n as int));
        }
        s
    }
}

/// The characters after the final path separator: the name component of a
/// path (the whole path when it holds no separator, empty after a trailing
/// one).
pub open spec fn file_name_spec(p: Seq<char>) -> Seq<char>
    decreases p.len(),
{
    if p.len() == 0 {
        Seq::empty()
    } else if p.last() == '/' {
        Seq::empty()
    } else {
        file_name_spec(p.drop_last()).push(p.last())
    }
}

proof fn lemma_file_name_cut(p: Seq<char>, cut: int)
    requires
        0 <= cut <= p.len(),
        cut > 0 ==> p[cut - 1] == '/',
        forall|j: int| cut <= j < p.len() ==> p[j] != '/',
    ensures
        file_name_spec(p) == p.subrange(cut, p.len() as int),
    decreases p.len(),
{
    if cut == p.len() {
        if p.len() == 0 {
            assert(file_name_spec(p) =~= p.subrange(cut, p.len() as int));
        } else {
            assert(p.last() == '/');
            assert(file_name_spec(p) =~= p.subrange(cut, p.len() as int));
        }
    } else {
        assert(p.last() != '/');
        lemma_file_name_cut(p.drop_last(), cut);
        assert(p.drop_last().subrange(cut, p.len() - 1) =~= p.subrange(cut, p.len() - 1));
        assert(file_name_spec(p) =~= p.subrange(cut, p.len() as int));
    }
}

/// Extracts the name component after the final `/` of a path.
pub fn file_name_of(p: &str) -> (r: String)
    ensures
        r@ == file_name_spec(p@),
{
    let l = p.unicode_len();
    let mut cut: usize = 0;
    let mut j: usize = l;
    while j > 0
        invariant
            l == p@.len(),
            cut == 0,
            j <= l,
            forall|k: int| j <= k < l ==> p@[k] != '/',
        decreases j,
    {
        j = j - 1;
        if p.get_char(j) == '/' {
            let out = String::from_str(p.substring_char(j + 1, l));
            proof {
                lemma_file_name_cut(p@, j + 1);
            }
            return out;
        }
    }
    let out = String::from_str(p.substring_char(0, l));
    proof {
        lemma_file_name_cut(p@, 0);
        assert(p@.subrange(0, l as int) =~= p@);
    }
    out
}

/// The position of the final `.` in a name, `-1` when there is none.
pub open spec fn last_dot(n: Seq<char>) -> int
    decreases n.len(),
{
    if n.len() == 0 {
        -1
    } else if n.last() == '.' {
        n.len() - 1
    } else {
        last_dot(n.drop_last())
    }
}

proof fn lemma_last_dot_at(n: Seq<char>, i: int)
    requires
        0 <= i < n.len(),
        n[i] == '.',
        forall|j: int| i < j < n.len() ==> n[j] != '.',
    ensures
        last_dot(n) == i,
    decreases n.len(),
{
    if n.last() == '.' {
        assert(i == n.len() - 1);
    } else {
        lemma_last_dot_at(n.drop_last(), i);
    }
}

proof fn lemma_last_dot_none(n: Seq<char>)
    requires
        forall|j: int| 0 <= j < n.len() ==> n[j] != '.',
    ensures
        last_dot(n) == -1,
    decreases n.len(),
{
    if n.len() > 0 {
        lemma_last_dot_none(n.drop_last());
    }
}

/// The extension of a file name: the characters after the final `.`, where
/// that dot is not the leading character; `None` otherwise.
pub open spec fn ext_spec(n: Seq<char>) -> Option<Seq<char>> {
    if last_dot(n) >= 1 {
        Some(n.subrange(last_dot(n) + 1, n.len() as int))
    } else {
        None
    }
}

/// Extracts the extension of a file name.
pub fn extension_of(n: &str) -> (r: Option<String>)
    ensures
        match r {
            Some(e) => ext_spec(n@) == Some(e@),
            None => ext_spec(n@) is None,
        },
{
    let l = n.unicode_len();
    let mut j: usize = l;
    while j > 0
        invariant
            l == n@.len(),
            j <= l,
            forall|k: int| j <= k < l ==> n@[k] != '.',
        decreases j,
    {
        j = j - 1;
        if n.get_char(j) == '.' {
            proof {
                lemma_last_dot_at(n@, j as int);
            }
            if j >= 1 {
                return Some(String::from_str(n.substring_char(j + 1, l)));
            } else {
                return None;
            }
        }
    }
    proof {
        lemma_last_dot_none(n@);
    }
    None
}

/// Whether the sequence holds the given character.
pub open spec fn seq_contains_char(s: Seq<char>, c: char) -> bool {
    exists|i: int| 0 <= i < s.len() && s[i] == c
}

/// Tests whether the string holds the given character.
pub fn str_contains_char(s: &str, c: char) -> (r: bool)
    ensures
        r == seq_contains_char(s@, c),
{
    let l = s.unicode_len();
    let mut i: usize = 0;
    while i < l
        invariant
            l == s@.len(),
            i <= l,
            forall|j: int| 0 <= j < i ==> s@[j] != c,
        decreases l - i,
    {
        if s.get_char(i) == c {
            return true;
        }
        i = i + 1;
    }
    false
}

/// Whether every character of the path is the separator or not; used to test
/// for an absolute path, which begins with the separator.
pub fn starts_with_char(s: &str, c: char) -> (r: bool)
    ensures
        r == (s@.len() > 0 && s@[0] == c),
{
    if s.unicode_len() == 0 {
        false
    } else {
        s.get_char(0) == c
    }
}

} // verus!
