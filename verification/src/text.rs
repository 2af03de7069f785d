//! Character-level text helpers shared by the parsers: whitespace trimming,
//! line and word splitting, ASCII case folding and decimal rendering.

use vstd::prelude::*;
use vstd::std_specs::iter::IteratorSpec;

verus! {

/// `String::push` appends one character to the end of the string.
pub assume_specification[ String::push ](s: &mut String, ch: char)
    ensures
        final(s)@ == old(s)@.push(ch),
;

/// The Unicode `White_Space` code points: the set that `char::is_whitespace`,
/// `str::trim` and `str::split_whitespace` treat as whitespace.
pub open spec fn is_space(c: char) -> bool {
    let u = c as u32;
    ||| 0x09 <= u <= 0x0D
    ||| u == 0x20
    ||| u == 0x85
    ||| u == 0xA0
    ||| u == 0x1680
    ||| 0x2000 <= u <= 0x200A
    ||| u == 0x2028
    ||| u == 0x2029
    ||| u == 0x202F
    ||| u == 0x205F
    ||| u == 0x3000
}

pub fn space_char(c: char) -> (b: bool)
    ensures
        b == is_space(c),
{
    let u = c as u32;
    (0x09 <= u && u <= 0x0D) || u == 0x20 || u == 0x85 || u == 0xA0 || u == 0x1680 || (0x2000
        <= u && u <= 0x200A) || u == 0x2028 || u == 0x2029 || u == 0x202F || u == 0x205F || u
        == 0x3000
}

/// The characters of `s`.
pub fn chars_of(s: &str) -> (v: Vec<char>)
    ensures
        v@ == s@,
{
    broadcast use vstd::string::axiom_spec_iter, vstd::string::next_postcondition;

    let mut v: Vec<char> = Vec::new();
    let mut it = s.chars();
    loop
        invariant
            v@ + it.remaining() == s@,
            it.decrease() is Some,
        ensures
            v@ == s@,
        decreases it.decrease()->0,
    {
        let ghost before = it.remaining();
        match it.next() {
            Some(c) => {
                assert(before == seq![c] + it.remaining());
                assert(v@.push(c) + it.remaining() == v@ + before);
                v.push(c);
            },
            None => {
                assert(v@ + Seq::<char>::empty() == v@);
                break;
            },
        }
    }
    v
}

/// A new string holding the characters `cs[from..to]`.
pub fn string_of(cs: &Vec<char>, from: usize, to: usize) -> (s: String)
    requires
        from <= to <= cs.len(),
    ensures
        s@ == cs@.subrange(from as int, to as int),
{
    let mut s = String::new();
    let mut i = from;
    while i < to
        invariant
            from <= i <= to <= cs.len(),
            s@ == cs@.subrange(from as int, i as int),
        decreases to - i,
    {
        s.push(cs[i]);
        proof {
            assert(cs@.subrange(from as int, i + 1) == cs@.subrange(from as int, i as int).push(
                cs@[i as int],
            ));
        }
        i = i + 1;
    }
    s
}

/// A new string from a string slice.
pub fn text(s: &str) -> (r: String)
    ensures
        r@ == s@,
{
    String::from_str(s)
}

/// Drops leading whitespace.
pub open spec fn trim_start(s: Seq<char>) -> Seq<char>
    decreases s.len(),
{
    if s.len() > 0 && is_space(s[0]) {
        trim_start(s.drop_first())
    } else {
        s
    }
}

/// Drops trailing whitespace.
pub open spec fn trim_end(s: Seq<char>) -> Seq<char>
    decreases s.len(),
{
    if s.len() > 0 && is_space(s.last()) {
        trim_end(s.drop_last())
    } else {
        s
    }
}

/// `str::trim`: leading and trailing whitespace removed.
pub open spec fn trim(s: Seq<char>) -> Seq<char> {
    trim_end(trim_start(s))
}

proof fn lemma_trim_start_skip(s: Seq<char>, i: int)
    requires
        0 <= i <= s.len(),
        forall|k: int| 0 <= k < i ==> is_space(#[trigger] s[k]),
    ensures
        trim_start(s) == trim_start(s.skip(i)),
    decreases i,
{
    if i > 0 {
        assert(is_space(s[0]));
        lemma_trim_start_skip(s.drop_first(), i - 1);
        assert(s.drop_first().skip(i - 1) == s.skip(i));
    } else {
        assert(s.skip(0) == s);
    }
}

proof fn lemma_trim_end_take(s: Seq<char>, j: int)
    requires
        0 <= j <= s.len(),
        forall|k: int| j <= k < s.len() ==> is_space(#[trigger] s[k]),
    ensures
        trim_end(s) == trim_end(s.take(j)),
    decreases s.len() - j,
{
    if j < s.len() {
        assert(is_space(s.last()));
        lemma_trim_end_take(s.drop_last(), j);
        assert(s.drop_last().take(j) == s.take(j));
    } else {
        assert(s.take(j) == s);
    }
}

/// The bounds `[from, to)` of `trim(cs[lo..hi])` inside `cs`.
pub fn trim_bounds(cs: &Vec<char>, lo: usize, hi: usize) -> (r: (usize, usize))
    requires
        lo <= hi <= cs.len(),
    ensures
        lo <= r.0 <= r.1 <= hi,
        cs@.subrange(r.0 as int, r.1 as int) == trim(cs@.subrange(lo as int, hi as int)),
{
    let ghost s = cs@.subrange(lo as int, hi as int);
    let mut i = lo;
    while i < hi && space_char(cs[i])
        invariant
            lo <= i <= hi <= cs.len(),
            s == cs@.subrange(lo as int, hi as int),
            forall|k: int| lo <= k < i ==> is_space(#[trigger] cs@[k]),
        decreases hi - i,
    {
        i = i + 1;
    }
    proof {
        assert forall|k: int| 0 <= k < i - lo implies is_space(#[trigger] s[k]) by {
            assert(s[k] == cs@[lo + k]);
        }
        lemma_trim_start_skip(s, i - lo);
        assert(s.skip(i - lo) == cs@.subrange(i as int, hi as int));
    }
    let mut j = hi;
    while j > i && space_char(cs[j - 1])
        invariant
            lo <= i <= j <= hi <= cs.len(),
            forall|k: int| j <= k < hi ==> is_space(#[trigger] cs@[k]),
        decreases j - i,
    {
        j = j - 1;
    }
    proof {
        let t = cs@.subrange(i as int, hi as int);
        assert forall|k: int| j - i <= k < t.len() implies is_space(#[trigger] t[k]) by {
            assert(t[k] == cs@[i + k]);
        }
        lemma_trim_end_take(t, j - i);
        assert(t.take(j - i) == cs@.subrange(i as int, j as int));
        let u = cs@.subrange(i as int, j as int);
        if u.len() > 0 {
            assert(u.last() == cs@[j - 1]);
        }
        if u.len() > 0 {
            assert(!is_space(u[0]));
        }
        assert(trim_start(t) == t) by {
            if t.len() > 0 {
                assert(t[0] == cs@[i as int]);
            }
        }
    }
    (i, j)
}

/// `str::trim` on a whole string.
pub fn trimmed(s: &str) -> (r: String)
    ensures
        r@ == trim(s@),
{
    let cs = chars_of(s);
    let (a, b) = trim_bounds(&cs, 0, cs.len());
    proof {
        assert(cs@.subrange(0, cs@.len() as int) == cs@);
    }
    string_of(&cs, a, b)
}

/// Splitting on whitespace: `cur` is the word being read, `rest` the input left.
pub open spec fn split_words(cur: Seq<char>, rest: Seq<char>) -> Seq<Seq<char>>
    decreases rest.len(),
{
    if rest.len() == 0 {
        if cur.len() > 0 {
            seq![cur]
        } else {
            seq![]
        }
    } else if is_space(rest[0]) {
        (if cur.len() > 0 {
            seq![cur]
        } else {
            seq![]
        }) + split_words(seq![], rest.drop_first())
    } else {
        split_words(cur.push(rest[0]), rest.drop_first())
    }
}

/// `str::split_whitespace`: the maximal runs of non-whitespace characters.
pub open spec fn words(s: Seq<char>) -> Seq<Seq<char>> {
    split_words(seq![], s)
}

/// `str::split_whitespace`, each word as its own string.
pub fn split_whitespace(s: &str) -> (r: Vec<String>)
    ensures
        r@.map_values(|w: String| w@) == words(s@),
{
    let cs = chars_of(s);
    let r = words_of(&cs, 0, cs.len());
    assert(cs@.subrange(0, cs@.len() as int) == cs@);
    r
}

/// The words of `cs[from..to]`, each as its own string.
pub fn words_of(cs: &Vec<char>, from: usize, to: usize) -> (r: Vec<String>)
    requires
        from <= to <= cs.len(),
    ensures
        r@.map_values(|w: String| w@) == words(cs@.subrange(from as int, to as int)),
{
    let ghost src = cs@.subrange(from as int, to as int);
    let mut out: Vec<String> = Vec::new();
    let mut start: usize = from;
    let mut i: usize = from;
    assert(cs@.subrange(from as int, from as int) == Seq::<char>::empty());
    assert(cs@.subrange(from as int, to as int) == cs@.subrange(from as int, to as int));
    assert(out@.map_values(|w: String| w@) == Seq::<Seq<char>>::empty());
    assert(Seq::<Seq<char>>::empty() + words(src) == words(src));
    while i < to
        invariant
            from <= start <= i <= to <= cs.len(),
            src == cs@.subrange(from as int, to as int),
            words(src) == out@.map_values(|w: String| w@) + split_words(
                cs@.subrange(start as int, i as int),
                cs@.subrange(i as int, to as int),
            ),
        decreases to - i,
    {
        let ghost cur = cs@.subrange(start as int, i as int);
        let ghost rest = cs@.subrange(i as int, to as int);
        assert(rest[0] == cs@[i as int]);
        assert(rest.drop_first() == cs@.subrange(i + 1, to as int));
        if space_char(cs[i]) {
            if start < i {
                let w = string_of(cs, start, i);
                let ghost before = out@.map_values(|w: String| w@);
                out.push(w);
                assert(out@.map_values(|w: String| w@) == before.push(cur));
                assert(before.push(cur) + split_words(seq![], cs@.subrange(i + 1, to as int))
                    == before + (seq![cur] + split_words(seq![], cs@.subrange(i + 1, to as int))));
            } else {
                assert(seq![] + split_words(seq![], cs@.subrange(i + 1, to as int)) == split_words(
                    seq![],
                    cs@.subrange(i + 1, to as int),
                ));
            }
            i = i + 1;
            start = i;
            assert(cs@.subrange(start as int, i as int) == Seq::<char>::empty());
        } else {
            assert(cur.push(cs@[i as int]) == cs@.subrange(start as int, i + 1));
            i = i + 1;
        }
    }
    let ghost cur = cs@.subrange(start as int, i as int);
    assert(cs@.subrange(i as int, to as int).len() == 0);
    if start < i {
        let w = string_of(cs, start, i);
        let ghost before = out@.map_values(|w: String| w@);
        out.push(w);
        assert(out@.map_values(|w: String| w@) == before.push(cur));
        assert(before + seq![cur] == before.push(cur));
    } else {
        assert(out@.map_values(|w: String| w@) + Seq::<Seq<char>>::empty() == out@.map_values(
            |w: String| w@,
        ));
    }
    out
}

/// A line without its `\r\n` ending: one trailing carriage return is dropped.
pub open spec fn strip_cr(line: Seq<char>) -> Seq<char> {
    if line.len() > 0 && line.last() == '\r' {
        line.drop_last()
    } else {
        line
    }
}

/// Splitting into lines: `cur` is the line being read, `rest` the input left.
pub open spec fn split_lines(cur: Seq<char>, rest: Seq<char>) -> Seq<Seq<char>>
    decreases rest.len(),
{
    if rest.len() == 0 {
        if cur.len() > 0 {
            seq![cur]
        } else {
            seq![]
        }
    } else if rest[0] == '\n' {
        seq![strip_cr(cur)] + split_lines(seq![], rest.drop_first())
    } else {
        split_lines(cur.push(rest[0]), rest.drop_first())
    }
}

/// `str::lines`: the text cut at each `\n`, a `\r` before it dropped; a final
/// line without an ending is kept as it is, and no empty line follows a final `\n`.
pub open spec fn lines(s: Seq<char>) -> Seq<Seq<char>> {
    split_lines(seq![], s)
}

/// The bounds of each line of `cs`, as `str::lines` cuts it.
pub fn line_bounds(cs: &Vec<char>) -> (r: Vec<(usize, usize)>)
    ensures
        forall|k: int| 0 <= k < r.len() ==> (#[trigger] r[k]).0 <= r[k].1 && r[k].1 <= cs.len(),
        r@.map_values(|b: (usize, usize)| cs@.subrange(b.0 as int, b.1 as int)) == lines(cs@),
{
    let mut out: Vec<(usize, usize)> = Vec::new();
    let mut start: usize = 0;
    let mut i: usize = 0;
    assert(cs@.skip(0) == cs@);
    assert(cs@.subrange(0, 0) == Seq::<char>::empty());
    assert(out@.map_values(|b: (usize, usize)| cs@.subrange(b.0 as int, b.1 as int))
        == Seq::<Seq<char>>::empty());
    assert(Seq::<Seq<char>>::empty() + lines(cs@) == lines(cs@));
    while i < cs.len()
        invariant
            start <= i <= cs.len(),
            forall|k: int| 0 <= k < out.len() ==> (#[trigger] out[k]).0 <= out[k].1 && out[k].1 <= cs.len(),
            lines(cs@) == out@.map_values(
                |b: (usize, usize)| cs@.subrange(b.0 as int, b.1 as int),
            ) + split_lines(cs@.subrange(start as int, i as int), cs@.skip(i as int)),
        decreases cs.len() - i,
    {
        let ghost cur = cs@.subrange(start as int, i as int);
        let ghost rest = cs@.skip(i as int);
        let ghost before = out@.map_values(
            |b: (usize, usize)| cs@.subrange(b.0 as int, b.1 as int),
        );
        assert(rest[0] == cs@[i as int]);
        assert(rest.drop_first() == cs@.skip(i + 1));
        if cs[i] == '\n' {
            let end = if start < i && cs[i - 1] == '\r' {
                i - 1
            } else {
                i
            };
            assert(cs@.subrange(start as int, end as int) == strip_cr(cur)) by {
                if cur.len() > 0 {
                    assert(cur.last() == cs@[i - 1]);
                }
            }
            let ghost old_out = out@;
            out.push((start, end));
            assert forall|k: int| 0 <= k < out.len() implies (#[trigger] out[k]).0 <= out[k].1
                && out[k].1 <= cs.len() by {
                if k < old_out.len() {
                    assert(out[k] == old_out[k]);
                }
            }
            assert(out@.map_values(|b: (usize, usize)| cs@.subrange(b.0 as int, b.1 as int))
                == before.push(strip_cr(cur)));
            assert(before.push(strip_cr(cur)) + split_lines(seq![], cs@.skip(i + 1)) == before
                + (seq![strip_cr(cur)] + split_lines(seq![], cs@.skip(i + 1))));
            i = i + 1;
            start = i;
            assert(cs@.subrange(start as int, i as int) == Seq::<char>::empty());
        } else {
            assert(cur.push(cs@[i as int]) == cs@.subrange(start as int, i + 1));
            i = i + 1;
        }
    }
    let ghost cur = cs@.subrange(start as int, i as int);
    let ghost before = out@.map_values(|b: (usize, usize)| cs@.subrange(b.0 as int, b.1 as int));
    assert(cs@.skip(i as int).len() == 0);
    if start < i {
        out.push((start, i));
        assert(out@.map_values(|b: (usize, usize)| cs@.subrange(b.0 as int, b.1 as int))
            == before.push(cur));
        assert(before + seq![cur] == before.push(cur));
    } else {
        assert(before + Seq::<Seq<char>>::empty() == before);
    }
    out
}

/// ASCII upper case of one character; other characters are kept.
pub open spec fn upper(c: char) -> char {
    if 'a' <= c <= 'z' {
        (((c as u32) - 32) as u8) as char
    } else {
        c
    }
}

/// ASCII lower case of one character; other characters are kept.
pub open spec fn lower(c: char) -> char {
    if 'A' <= c <= 'Z' {
        (((c as u32) + 32) as u8) as char
    } else {
        c
    }
}

pub fn upper_char(c: char) -> (r: char)
    ensures
        r == upper(c),
{
    if 'a' <= c && c <= 'z' {
        let u: u32 = (c as u32) - 32;
        (u as u8) as char
    } else {
        c
    }
}

pub fn lower_char(c: char) -> (r: char)
    ensures
        r == lower(c),
{
    if 'A' <= c && c <= 'Z' {
        let u: u32 = (c as u32) + 32;
        (u as u8) as char
    } else {
        c
    }
}

/// `str::to_ascii_uppercase`.
pub open spec fn upper_all(s: Seq<char>) -> Seq<char> {
    s.map_values(|c: char| upper(c))
}

/// `str::to_ascii_lowercase`.
pub open spec fn lower_all(s: Seq<char>) -> Seq<char> {
    s.map_values(|c: char| lower(c))
}

/// The characters `cs[from..to]` in ASCII upper case.
pub fn upper_range(cs: &Vec<char>, from: usize, to: usize) -> (r: Vec<char>)
    requires
        from <= to <= cs.len(),
    ensures
        r@ == upper_all(cs@.subrange(from as int, to as int)),
{
    let mut r: Vec<char> = Vec::new();
    let mut i = from;
    while i < to
        invariant
            from <= i <= to <= cs.len(),
            r@ == upper_all(cs@.subrange(from as int, i as int)),
        decreases to - i,
    {
        r.push(upper_char(cs[i]));
        assert(upper_all(cs@.subrange(from as int, i + 1)) == upper_all(
            cs@.subrange(from as int, i as int),
        ).push(upper(cs@[i as int])));
        i = i + 1;
    }
    r
}

/// The characters `cs[from..to]` in ASCII lower case.
pub fn lower_range(cs: &Vec<char>, from: usize, to: usize) -> (r: Vec<char>)
    requires
        from <= to <= cs.len(),
    ensures
        r@ == lower_all(cs@.subrange(from as int, to as int)),
{
    let mut r: Vec<char> = Vec::new();
    let mut i = from;
    while i < to
        invariant
            from <= i <= to <= cs.len(),
            r@ == lower_all(cs@.subrange(from as int, i as int)),
        decreases to - i,
    {
        r.push(lower_char(cs[i]));
        assert(lower_all(cs@.subrange(from as int, i + 1)) == lower_all(
            cs@.subrange(from as int, i as int),
        ).push(lower(cs@[i as int])));
        i = i + 1;
    }
    r
}

/// Whether two character sequences are equal.
pub fn chars_eq(a: &Vec<char>, b: &str) -> (r: bool)
    ensures
        r == (a@ == b@),
{
    let bs = chars_of(b);
    if a.len() != bs.len() {
        return false;
    }
    let mut i: usize = 0;
    while i < a.len()
        invariant
            i <= a.len() == bs.len(),
            bs@ == b@,
            forall|k: int| 0 <= k < i ==> a@[k] == bs@[k],
        decreases a.len() - i,
    {
        if a[i] != bs[i] {
            assert(a@[i as int] != bs@[i as int]);
            return false;
        }
        i = i + 1;
    }
    assert(a@ == bs@);
    true
}

/// The decimal digit character for `d < 10`.
pub open spec fn digit(d: nat) -> char {
    ((48 + d) as u8) as char
}

/// The decimal rendering of `n`, as `Display` writes an unsigned integer.
pub open spec fn decimal(n: nat) -> Seq<char>
    decreases n,
{
    if n < 10 {
        seq![digit(n)]
    } else {
        decimal(n / 10).push(digit(n % 10))
    }
}

/// Appends the decimal rendering of `n`.
pub fn push_decimal(s: &mut String, n: usize)
    ensures
        final(s)@ == old(s)@ + decimal(n as nat),
    decreases n,
{
    if n >= 10 {
        push_decimal(s, n / 10);
    }
    let d: u8 = (n % 10) as u8;
    let c: char = (48u8 + d) as char;
    s.push(c);
    proof {
        if n >= 10 {
            assert(decimal(n as nat) == decimal((n / 10) as nat).push(digit((n % 10) as nat)));
        }
    }
}

/// `format!("{:?}", list)` for a slice of unsigned integers: `[1, 2, 3]`.
pub open spec fn debug_list(s: Seq<usize>) -> Seq<char> {
    seq!['['] + list_body(s) + seq![']']
}

/// The entries of a list in decimal, separated by `", "`.
pub open spec fn list_body(s: Seq<usize>) -> Seq<char>
    decreases s.len(),
{
    if s.len() == 0 {
        seq![]
    } else if s.len() == 1 {
        decimal(s[0] as nat)
    } else {
        list_body(s.drop_last()) + seq![',', ' '] + decimal(s.last() as nat)
    }
}

/// Appends the `Debug` rendering of a list of unsigned integers.
pub fn push_debug_list(s: &mut String, list: &[usize])
    ensures
        final(s)@ == old(s)@ + debug_list(list@),
{
    let ghost start = s@;
    s.push('[');
    let mut i: usize = 0;
    while i < list.len()
        invariant
            i <= list.len(),
            s@ == start + seq!['['] + list_body(list@.take(i as int)),
        decreases list.len() - i,
    {
        let ghost before = s@;
        if i > 0 {
            s.push(',');
            s.push(' ');
        }
        push_decimal(s, list[i]);
        proof {
            let t = list@.take(i + 1);
            assert(t.drop_last() == list@.take(i as int));
            assert(t.last() == list@[i as int]);
            if i == 0 {
                assert(list_body(list@.take(0)) == Seq::<char>::empty());
            }
        }
        i = i + 1;
    }
    s.push(']');
    assert(list@.take(list.len() as int) == list@);
    assert(start + seq!['['] + list_body(list@) + seq![']'] == start + debug_list(list@));
}

} // verus!
