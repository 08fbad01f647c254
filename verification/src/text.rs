//! Text handling of process output: lossy decoding, lines and trimming.
use vstd::prelude::*;

verus! {

broadcast use vstd::string::group_string_axioms;

/// The characters `String::from_utf8_lossy` makes of `bytes`.
pub uninterp spec fn lossy_utf8(bytes: Seq<u8>) -> Seq<char>;

/// Decodes `bytes` with `String::from_utf8_lossy`.
/// Trusted: the result is named by `lossy_utf8`; std documents that valid
/// UTF-8 is decoded as it stands (invalid sequences become U+FFFD, which is
/// left unsaid here).
#[verifier::external_body]
pub(crate) fn utf8_lossy(bytes: &[u8]) -> (s: String)
    ensures
        s@ == lossy_utf8(bytes@),
        vstd::utf8::valid_utf8(bytes@) ==> s@ == vstd::utf8::decode_utf8(bytes@),
{
    String::from_utf8_lossy(bytes).into_owned()
}

/// Appends `c` to `s` with `String::push`.
/// Trusted: std documents that `push` appends the character to the end.
#[verifier::external_body]
pub(crate) fn push_char(s: &mut String, c: char)
    ensures
        final(s)@ == old(s)@.push(c),
{
    s.push(c)
}

/// The characters of `s`.
pub fn chars_of(s: &str) -> (r: Vec<char>)
    ensures
        r@ == s@,
{
    let mut v: Vec<char> = Vec::new();
    for c in it: s.chars()
        invariant
            v@ == it.seq().take(it.index() as int),
            it.seq() == s@,
    {
        v.push(c);
    }
    v
}

/// The string made of `cs`.
pub fn string_of(cs: &[char]) -> (r: String)
    ensures
        r@ == cs@,
{
    let mut r = String::new();
    let mut i: usize = 0;
    while i < cs.len()
        invariant
            i <= cs@.len(),
            r@ == cs@.take(i as int),
        decreases cs@.len() - i,
    {
        push_char(&mut r, cs[i]);
        assert(cs@.take(i + 1) =~= cs@.take(i as int).push(cs@[i as int]));
        i = i + 1;
    }
    assert(cs@.take(cs@.len() as int) =~= cs@);
    r
}

/// The views of a sequence of character vectors.
pub open spec fn char_views(v: Seq<Vec<char>>) -> Seq<Seq<char>> {
    v.map_values(|x: Vec<char>| x@)
}

/// The pieces of `s` between newline characters, as `split('\n')` gives them.
pub open spec fn newline_pieces(s: Seq<char>) -> Seq<Seq<char>>
    decreases s.len(),
{
    if s.len() == 0 {
        seq![Seq::empty()]
    } else {
        let p = newline_pieces(s.drop_last());
        if s.last() == '\n' {
            p.push(Seq::empty())
        } else {
            p.update(p.len() - 1, p.last().push(s.last()))
        }
    }
}

/// A line without the carriage return that ended it.
pub open spec fn strip_cr(line: Seq<char>) -> Seq<char> {
    if line.len() > 0 && line.last() == '\r' {
        line.drop_last()
    } else {
        line
    }
}

/// The lines of `s`, as `str::lines` gives them: split at each newline, a
/// carriage return just before a newline dropped, and no empty line after a
/// final newline.
pub open spec fn lines(s: Seq<char>) -> Seq<Seq<char>> {
    let p = newline_pieces(s);
    let body = p.drop_last().map_values(|l: Seq<char>| strip_cr(l));
    if p.last().len() == 0 {
        body
    } else {
        body.push(p.last())
    }
}

proof fn lemma_pieces_nonempty(s: Seq<char>)
    ensures
        newline_pieces(s).len() >= 1,
    decreases s.len(),
{
    if s.len() > 0 {
        lemma_pieces_nonempty(s.drop_last());
    }
}

/// Splits `cs` into lines (see [`lines`]).
pub fn split_lines(cs: &Vec<char>) -> (r: Vec<Vec<char>>)
    ensures
        char_views(r@) == lines(cs@),
{
    let mut done: Vec<Vec<char>> = Vec::new();
    let mut cur: Vec<char> = Vec::new();
    let mut i: usize = 0;
    assert(cs@.take(0) =~= Seq::<char>::empty());
    assert(char_views(done@) =~= newline_pieces(cs@.take(0)).drop_last().map_values(
        |l: Seq<char>| strip_cr(l),
    ));
    while i < cs.len()
        invariant
            i <= cs@.len(),
            newline_pieces(cs@.take(i as int)).len() >= 1,
            char_views(done@) == newline_pieces(cs@.take(i as int)).drop_last().map_values(
                |l: Seq<char>| strip_cr(l),
            ),
            cur@ == newline_pieces(cs@.take(i as int)).last(),
        decreases cs@.len() - i,
    {
        let c = cs[i];
        let ghost prefix = cs@.take(i as int);
        let ghost p = newline_pieces(prefix);
        assert(cs@.take(i + 1).drop_last() =~= prefix);
        proof {
            lemma_pieces_nonempty(cs@.take(i + 1));
        }
        if c == '\n' {
            let mut line = cur;
            if line.len() > 0 && line[line.len() - 1] == '\r' {
                line.pop();
                assert(line@ =~= strip_cr(p.last()));
            }
            let ghost before = done@;
            done.push(line);
            cur = Vec::new();
            let ghost q = newline_pieces(cs@.take(i + 1));
            assert(q =~= p.push(Seq::empty()));
            assert(q.drop_last() =~= p);
            assert(p =~= p.drop_last().push(p.last()));
            assert(char_views(done@) =~= char_views(before).push(strip_cr(p.last())));
            assert(char_views(done@) =~= q.drop_last().map_values(|l: Seq<char>| strip_cr(l)));
        } else {
            cur.push(c);
            let ghost q = newline_pieces(cs@.take(i + 1));
            assert(q =~= p.update(p.len() - 1, p.last().push(c)));
            assert(q.drop_last() =~= p.drop_last());
        }
        i = i + 1;
    }
    assert(cs@.take(cs@.len() as int) =~= cs@);
    if cur.len() > 0 {
        let ghost before = done@;
        done.push(cur);
        assert(char_views(done@) =~= char_views(before).push(newline_pieces(cs@).last()));
    }
    done
}

/// Unicode White_Space characters, those `char::is_whitespace` accepts.
pub open spec fn is_unicode_whitespace(c: char) -> bool {
    let u = c as u32;
    (9 <= u <= 13) || u == 32 || u == 0x85 || u == 0xA0 || u == 0x1680 || (0x2000 <= u <= 0x200A)
        || u == 0x2028 || u == 0x2029 || u == 0x202F || u == 0x205F || u == 0x3000
}

/// Whether `c` is trimmed: the NUL character when `nul`, otherwise white space.
pub open spec fn is_trimmed(nul: bool, c: char) -> bool {
    if nul {
        c == '\0'
    } else {
        is_unicode_whitespace(c)
    }
}

pub open spec fn trim_start_by(s: Seq<char>, nul: bool) -> Seq<char>
    decreases s.len(),
{
    if s.len() > 0 && is_trimmed(nul, s[0]) {
        trim_start_by(s.drop_first(), nul)
    } else {
        s
    }
}

pub open spec fn trim_end_by(s: Seq<char>, nul: bool) -> Seq<char>
    decreases s.len(),
{
    if s.len() > 0 && is_trimmed(nul, s.last()) {
        trim_end_by(s.drop_last(), nul)
    } else {
        s
    }
}

/// `s` without the trimmed characters at either end, as `str::trim` (white
/// space) or `trim_matches('\0')` (NUL) give it.
pub open spec fn trim_by(s: Seq<char>, nul: bool) -> Seq<char> {
    trim_end_by(trim_start_by(s, nul), nul)
}

fn trimmed(c: char, nul: bool) -> (r: bool)
    ensures
        r == is_trimmed(nul, c),
{
    if nul {
        c == '\0'
    } else {
        let u = c as u32;
        (9 <= u && u <= 13) || u == 32 || u == 0x85 || u == 0xA0 || u == 0x1680 || (0x2000 <= u
            && u <= 0x200A) || u == 0x2028 || u == 0x2029 || u == 0x202F || u == 0x205F || u
            == 0x3000
    }
}

/// `cs` trimmed at both ends (see [`trim_by`]).
pub fn trim_chars(cs: &[char], nul: bool) -> (r: Vec<char>)
    ensures
        r@ == trim_by(cs@, nul),
{
    let n = cs.len();
    let mut a: usize = 0;
    assert(cs@.skip(0) =~= cs@);
    while a < n && trimmed(cs[a], nul)
        invariant
            n == cs@.len(),
            a <= n,
            trim_start_by(cs@, nul) == trim_start_by(cs@.skip(a as int), nul),
        decreases n - a,
    {
        assert(cs@.skip(a as int).drop_first() =~= cs@.skip(a + 1));
        a = a + 1;
    }
    assert(trim_start_by(cs@.skip(a as int), nul) == cs@.skip(a as int));
    assert(cs@.skip(a as int) =~= cs@.subrange(a as int, n as int));
    let mut b: usize = n;
    while b > a && trimmed(cs[b - 1], nul)
        invariant
            n == cs@.len(),
            a <= b <= n,
            trim_end_by(cs@.subrange(a as int, n as int), nul) == trim_end_by(
                cs@.subrange(a as int, b as int),
                nul,
            ),
        decreases b - a,
    {
        assert(cs@.subrange(a as int, b as int).drop_last() =~= cs@.subrange(a as int, b - 1));
        b = b - 1;
    }
    assert(trim_end_by(cs@.subrange(a as int, b as int), nul) == cs@.subrange(a as int, b as int));
    let mut r: Vec<char> = Vec::new();
    let mut k: usize = a;
    while k < b
        invariant
            n == cs@.len(),
            a <= k <= b <= n,
            r@ == cs@.subrange(a as int, k as int),
        decreases b - k,
    {
        r.push(cs[k]);
        assert(cs@.subrange(a as int, k + 1) =~= cs@.subrange(a as int, k as int).push(cs@[k as int]));
        k = k + 1;
    }
    r
}

} // verus!
