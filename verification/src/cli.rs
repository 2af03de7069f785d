//! Command-line argument parsing for the `vecfit` program.

use vstd::prelude::*;

use crate::text::{chars_eq, chars_of, decimal, digit, lower_all, lower_range, trim, trim_bounds};

verus! {

pub open spec fn is_digit(c: char) -> bool {
    '0' <= c <= '9'
}

/// The value of a string of decimal digits.
pub open spec fn digits_value(s: Seq<char>) -> nat
    decreases s.len(),
{
    if s.len() == 0 {
        0
    } else {
        digits_value(s.drop_last()) * 10 + ((s.last() as u32) - 48) as nat
    }
}

/// The text after an optional leading `+`.
pub open spec fn unsigned_part(s: Seq<char>) -> Seq<char> {
    if s.len() > 0 && s[0] == '+' {
        s.drop_first()
    } else {
        s
    }
}

pub open spec fn all_digits(d: Seq<char>) -> bool {
    forall|i: int| 0 <= i < d.len() ==> is_digit(#[trigger] d[i])
}

/// What `str::parse::<usize>` accepts: an optional `+`, then at least one decimal
/// digit and nothing else, with a value that fits in `usize`.
pub open spec fn parse_usize(s: Seq<char>) -> Option<usize> {
    let d = unsigned_part(s);
    if d.len() > 0 && all_digits(d) && digits_value(d) <= usize::MAX {
        Some(digits_value(d) as usize)
    } else {
        None
    }
}

proof fn lemma_digits_grow(s: Seq<char>, c: char)
    requires
        is_digit(c),
    ensures
        digits_value(s.push(c)) >= digits_value(s),
        digits_value(s.push(c)) == digits_value(s) * 10 + ((c as u32) - 48) as nat,
{
    assert(s.push(c).drop_last() == s);
}

proof fn lemma_digits_monotone(s: Seq<char>, k: int)
    requires
        0 <= k <= s.len(),
        forall|i: int| 0 <= i < s.len() ==> is_digit(#[trigger] s[i]),
    ensures
        digits_value(s.take(k)) <= digits_value(s),
    decreases s.len() - k,
{
    if k < s.len() {
        lemma_digits_monotone(s, k + 1);
        assert(s.take(k + 1) == s.take(k).push(s[k]));
        lemma_digits_grow(s.take(k), s[k]);
    } else {
        assert(s.take(k) == s);
    }
}

/// `str::parse::<usize>`.
pub fn parse_usize_text(text: &str) -> (r: Option<usize>)
    ensures
        r == parse_usize(text@),
{
    let cs = chars_of(text);
    let ghost s = text@;
    let start: usize = if cs.len() > 0 && cs[0] == '+' {
        1
    } else {
        0
    };
    let ghost d = if s.len() > 0 && s[0] == '+' {
        s.drop_first()
    } else {
        s
    };
    assert(d == cs@.skip(start as int));
    if start == cs.len() {
        return None;
    }
    let mut value: usize = 0;
    let mut overflow = false;
    let mut i = start;
    while i < cs.len()
        invariant
            start <= i <= cs.len(),
            d == cs@.skip(start as int),
            d == unsigned_part(text@),
            forall|k: int| start <= k < i ==> is_digit(#[trigger] cs@[k]),
            !overflow ==> value == digits_value(cs@.subrange(start as int, i as int)),
            overflow ==> digits_value(cs@.subrange(start as int, i as int)) > usize::MAX,
        decreases cs.len() - i,
    {
        let c = cs[i];
        if !('0' <= c && c <= '9') {
            assert(d[i - start] == cs@[i as int]);
            assert(!is_digit(d[i - start]));
            assert(!all_digits(d));
            return None;
        }
        let ghost prefix = cs@.subrange(start as int, i as int);
        assert(cs@.subrange(start as int, i + 1) == prefix.push(c));
        proof {
            lemma_digits_grow(prefix, c);
        }
        let digit: usize = ((c as u32) - 48) as usize;
        if !overflow {
            match value.checked_mul(10) {
                Some(t) => match t.checked_add(digit) {
                    Some(v) => {
                        value = v;
                    },
                    None => {
                        overflow = true;
                    },
                },
                None => {
                    overflow = true;
                },
            }
        }
        i = i + 1;
    }
    assert(cs@.subrange(start as int, cs.len() as int) == d);
    assert forall|k: int| 0 <= k < d.len() implies is_digit(#[trigger] d[k]) by {
        assert(d[k] == cs@[start + k]);
    }
    if overflow {
        None
    } else {
        Some(value)
    }
}

/// `invalid {name}: {value}`.
pub open spec fn invalid_value_msg(name: Seq<char>, value: Seq<char>) -> Seq<char> {
    "invalid "@ + name + ": "@ + value
}

/// A positive count: what `str::parse::<usize>` accepts, but not zero.
pub open spec fn positive_count(s: Seq<char>) -> Option<usize> {
    match parse_usize(s) {
        Some(n) => if n > 0 {
            Some(n)
        } else {
            None
        },
        None => None,
    }
}

/// A positive count given on the command line.
pub fn parse_positive_usize(value: &str, name: &str) -> (r: Result<usize, String>)
    ensures
        positive_count(value@) matches Some(n) ==> r == Ok::<usize, String>(n),
        positive_count(value@) is None ==> r is Err && r->Err_0@ == invalid_value_msg(
            name@,
            value@,
        ),
{
    match parse_usize_text(value) {
        Some(parsed) => {
            if parsed > 0 {
                return Ok(parsed);
            }
        },
        None => {},
    }
    let mut m = String::from_str("invalid ");
    m.append(name);
    m.append(": ");
    m.append(value);
    Err(m)
}

/// Splitting at a separator: `cur` is the piece being read, `rest` the input left.
pub open spec fn split_at_sep(cur: Seq<char>, rest: Seq<char>, sep: char) -> Seq<Seq<char>>
    decreases rest.len(),
{
    if rest.len() == 0 {
        seq![cur]
    } else if rest[0] == sep {
        seq![cur] + split_at_sep(seq![], rest.drop_first(), sep)
    } else {
        split_at_sep(cur.push(rest[0]), rest.drop_first(), sep)
    }
}

/// `str::split(sep)`: the pieces between separators, empty ones included.
pub open spec fn split_on(s: Seq<char>, sep: char) -> Seq<Seq<char>> {
    split_at_sep(seq![], s, sep)
}

/// A `--terms` piece names one term.
pub open spec fn is_term(p: Seq<char>) -> bool {
    trim(p) == "d"@ || trim(p) == "e"@
}

/// The `--terms` value in its normal form: trimmed, in ASCII lower case.
pub open spec fn normalized_terms(value: Seq<char>) -> Seq<char> {
    lower_all(trim(value))
}

/// What `--terms` selects, as (constant term, proportional term); `None` when the
/// value is not accepted.
pub open spec fn fit_terms(value: Seq<char>) -> Option<(bool, bool)> {
    let n = normalized_terms(value);
    if n == "none"@ || n == "0"@ {
        Some((false, false))
    } else if n == "d"@ {
        Some((true, false))
    } else if n == "e"@ {
        Some((false, true))
    } else if n == "de"@ || n == "ed"@ {
        Some((true, true))
    } else {
        let pieces = split_on(n, ',');
        if forall|k: int| 0 <= k < pieces.len() ==> is_term(#[trigger] pieces[k]) {
            Some(
                (
                    exists|k: int| 0 <= k < pieces.len() && trim(#[trigger] pieces[k]) == "d"@,
                    exists|k: int| 0 <= k < pieces.len() && trim(#[trigger] pieces[k]) == "e"@,
                ),
            )
        } else {
            None
        }
    }
}

pub open spec fn invalid_terms_msg(value: Seq<char>) -> Seq<char> {
    "invalid --terms value: "@ + value + "; use one of none, d, e, de, d,e"@
}

fn invalid_terms(value: &str) -> (m: String)
    ensures
        m@ == invalid_terms_msg(value@),
{
    let mut m = String::from_str("invalid --terms value: ");
    m.append(value);
    m.append("; use one of none, d, e, de, d,e");
    m
}

/// Which polynomial terms to fit: `none`, `d`, `e`, `de`, or a comma-separated list.
pub fn parse_fit_terms(value: &str) -> (r: Result<(bool, bool), String>)
    ensures
        fit_terms(value@) matches Some(t) ==> r == Ok::<(bool, bool), String>(t),
        fit_terms(value@) is None ==> r is Err && r->Err_0@ == invalid_terms_msg(value@),
{
    let cs = chars_of(value);
    let (a, b) = trim_bounds(&cs, 0, cs.len());
    assert(cs@.subrange(0, cs@.len() as int) == cs@);
    let n = lower_range(&cs, a, b);
    let ghost nv = normalized_terms(value@);
    assert(n@ == nv);
    if chars_eq(&n, "none") || chars_eq(&n, "0") {
        return Ok((false, false));
    }
    if chars_eq(&n, "d") {
        return Ok((true, false));
    }
    if chars_eq(&n, "e") {
        return Ok((false, true));
    }
    if chars_eq(&n, "de") || chars_eq(&n, "ed") {
        return Ok((true, true));
    }
    let ghost all = split_on(nv, ',');
    assert(n@.skip(0) == n@);
    assert(n@.subrange(0, 0) == Seq::<char>::empty());
    assert(Seq::<Seq<char>>::empty() + all == all);
    let mut fit_d = false;
    let mut fit_e = false;
    let mut start: usize = 0;
    let mut i: usize = 0;
    let ghost mut done: Seq<Seq<char>> = seq![];
    while i < n.len()
        invariant
            start <= i <= n.len(),
            n@ == nv,
            nv == normalized_terms(value@),
            nv != "none"@ && nv != "0"@ && nv != "d"@ && nv != "e"@ && nv != "de"@ && nv != "ed"@,
            all == split_on(nv, ','),
            all == done + split_at_sep(n@.subrange(start as int, i as int), n@.skip(i as int), ','),
            forall|k: int| 0 <= k < done.len() ==> is_term(#[trigger] done[k]),
            fit_d == exists|k: int| 0 <= k < done.len() && trim(#[trigger] done[k]) == "d"@,
            fit_e == exists|k: int| 0 <= k < done.len() && trim(#[trigger] done[k]) == "e"@,
        decreases n.len() - i,
    {
        let ghost rest = n@.skip(i as int);
        assert(rest[0] == n@[i as int]);
        assert(rest.drop_first() == n@.skip(i + 1));
        if n[i] == ',' {
            let ghost piece = n@.subrange(start as int, i as int);
            assert(done + (seq![piece] + split_at_sep(seq![], n@.skip(i + 1), ',')) == done.push(
                piece,
            ) + split_at_sep(seq![], n@.skip(i + 1), ','));
            let t = term_of(&n, start, i);
            match t {
                None => {
                    assert(all[done.len() as int] == piece);
                    return Err(invalid_terms(value));
                },
                Some((is_d, is_e)) => {
                    proof {
                        let nd = done.push(piece);
                        assert(nd[done.len() as int] == piece);
                        assert forall|k: int| 0 <= k < done.len() implies #[trigger] nd[k]
                            == done[k] by {}
                        lemma_exists_push(done, piece, "d"@);
                        lemma_exists_push(done, piece, "e"@);
                        done = nd;
                    }
                    if is_d {
                        fit_d = true;
                    }
                    if is_e {
                        fit_e = true;
                    }
                },
            }
            start = i + 1;
            assert(n@.subrange(start as int, i + 1) == Seq::<char>::empty());
        } else {
            assert(n@.subrange(start as int, i as int).push(n@[i as int]) == n@.subrange(
                start as int,
                i + 1,
            ));
        }
        i = i + 1;
    }
    let ghost piece = n@.subrange(start as int, i as int);
    assert(n@.skip(i as int).len() == 0);
    assert(done + seq![piece] == done.push(piece));
    match term_of(&n, start, i) {
        None => {
            assert(all[done.len() as int] == piece);
            return Err(invalid_terms(value));
        },
        Some((is_d, is_e)) => {
            proof {
                let nd = done.push(piece);
                assert(nd[done.len() as int] == piece);
                assert forall|k: int| 0 <= k < done.len() implies #[trigger] nd[k] == done[k] by {}
                lemma_exists_push(done, piece, "d"@);
                lemma_exists_push(done, piece, "e"@);
                done = nd;
            }
            if is_d {
                fit_d = true;
            }
            if is_e {
                fit_e = true;
            }
        },
    }
    assert(all == done);
    Ok((fit_d, fit_e))
}

proof fn lemma_exists_push(done: Seq<Seq<char>>, piece: Seq<char>, lit: Seq<char>)
    ensures
        (exists|k: int| 0 <= k < done.push(piece).len() && trim(#[trigger] done.push(piece)[k])
            == lit) == ((exists|k: int| 0 <= k < done.len() && trim(#[trigger] done[k]) == lit)
            || trim(piece) == lit),
{
    let nd = done.push(piece);
    if exists|k: int| 0 <= k < done.len() && trim(#[trigger] done[k]) == lit {
        let k = choose|k: int| 0 <= k < done.len() && trim(#[trigger] done[k]) == lit;
        assert(nd[k] == done[k]);
    }
    if trim(piece) == lit {
        assert(nd[done.len() as int] == piece);
    }
    if exists|k: int| 0 <= k < nd.len() && trim(#[trigger] nd[k]) == lit {
        let k = choose|k: int| 0 <= k < nd.len() && trim(#[trigger] nd[k]) == lit;
        if k < done.len() {
            assert(nd[k] == done[k]);
        } else {
            assert(nd[k] == piece);
        }
    }
}

/// Whether `n[from..to]`, trimmed, is `d` or `e`: `Some((is d, is e))`, `None` otherwise.
fn term_of(n: &Vec<char>, from: usize, to: usize) -> (r: Option<(bool, bool)>)
    requires
        from <= to <= n.len(),
    ensures
        r is None <==> !is_term(n@.subrange(from as int, to as int)),
        r matches Some(p) ==> p.0 == (trim(n@.subrange(from as int, to as int)) == "d"@) && p.1 == (
        trim(n@.subrange(from as int, to as int)) == "e"@),
{
    let (p, q) = trim_bounds(n, from, to);
    let is_d = q > p && q - p == 1 && n[p] == 'd';
    let is_e = q > p && q - p == 1 && n[p] == 'e';
    proof {
        reveal_strlit("d");
        assert("d"@ =~= seq!['d']);
        reveal_strlit("e");
        assert("e"@ =~= seq!['e']);
        let t = trim(n@.subrange(from as int, to as int));
        assert(t == n@.subrange(p as int, q as int));
        assert("d"@.len() == 1 && "d"@[0] == 'd');
        assert("e"@.len() == 1 && "e"@[0] == 'e');
        if q == p + 1 {
            assert(t[0] == n@[p as int]);
            if n@[p as int] == 'd' {
                assert(t =~= "d"@);
            }
            if n@[p as int] == 'e' {
                assert(t =~= "e"@);
            }
        }
    }
    if is_d || is_e {
        Some((is_d, is_e))
    } else {
        None
    }
}

/// Whether a string equals a literal.
pub fn str_eq(a: &str, lit: &str) -> (r: bool)
    ensures
        r == (a@ == lit@),
{
    let cs = chars_of(a);
    chars_eq(&cs, lit)
}

/// The settings gathered from `fit` arguments so far.
pub ghost struct ArgsState {
    pub input: Option<Seq<char>>,
    pub matrix: Option<(usize, usize)>,
    pub output: Option<Seq<char>>,
    pub poles: Option<usize>,
    pub real_only: bool,
    pub weighted: bool,
    pub terms: Option<(bool, bool)>,
    pub state_space: bool,
}

/// How reading `fit` arguments ends: help was asked for, the settings, or an error message.
pub ghost enum ArgsOutcome {
    Help,
    Done(ArgsState),
    Fail(Seq<char>),
}

pub open spec fn initial_args() -> ArgsState {
    ArgsState {
        input: None,
        matrix: None,
        output: None,
        poles: None,
        real_only: false,
        weighted: false,
        terms: None,
        state_space: false,
    }
}

/// Reads `fit` arguments from left to right; an option that takes values takes the
/// arguments that follow it.
pub open spec fn scan_fit_args(st: ArgsState, rest: Seq<Seq<char>>) -> ArgsOutcome
    decreases rest.len(),
{
    if rest.len() == 0 {
        if st.input is Some {
            ArgsOutcome::Done(st)
        } else {
            ArgsOutcome::Fail("missing input file"@)
        }
    } else {
        let a = rest[0];
        let tail = rest.drop_first();
        if a == "--help"@ || a == "-h"@ {
            ArgsOutcome::Help
        } else if a == "--poles"@ {
            if tail.len() == 0 {
                ArgsOutcome::Fail("--poles requires a value"@)
            } else {
                match positive_count(tail[0]) {
                    Some(n) => scan_fit_args(ArgsState { poles: Some(n), ..st }, tail.drop_first()),
                    None => ArgsOutcome::Fail(invalid_value_msg("pole count"@, tail[0])),
                }
            }
        } else if a == "--matrix"@ {
            if st.matrix is Some {
                ArgsOutcome::Fail("--matrix may only be provided once"@)
            } else if tail.len() < 2 {
                ArgsOutcome::Fail("--matrix requires ROWS COLS"@)
            } else {
                match positive_count(tail[0]) {
                    None => ArgsOutcome::Fail(invalid_value_msg("matrix row count"@, tail[0])),
                    Some(r) => match positive_count(tail[1]) {
                        None => ArgsOutcome::Fail(invalid_value_msg("matrix column count"@, tail[1])),
                        Some(c) => scan_fit_args(ArgsState { matrix: Some((r, c)), ..st }, tail.skip(2)),
                    },
                }
            }
        } else if a == "--real-only"@ {
            scan_fit_args(ArgsState { real_only: true, ..st }, tail)
        } else if a == "--weighted"@ {
            scan_fit_args(ArgsState { weighted: true, ..st }, tail)
        } else if a == "--terms"@ {
            if tail.len() == 0 {
                ArgsOutcome::Fail("--terms requires a value"@)
            } else {
                match fit_terms(tail[0]) {
                    Some(t) => scan_fit_args(ArgsState { terms: Some(t), ..st }, tail.drop_first()),
                    None => ArgsOutcome::Fail(invalid_terms_msg(tail[0])),
                }
            }
        } else if a == "--state-space"@ {
            scan_fit_args(ArgsState { state_space: true, ..st }, tail)
        } else if a == "--output"@ {
            if st.output is Some {
                ArgsOutcome::Fail("--output may only be provided once"@)
            } else if tail.len() == 0 {
                ArgsOutcome::Fail("--output requires a value"@)
            } else {
                scan_fit_args(ArgsState { output: Some(tail[0]), ..st }, tail.drop_first())
            }
        } else if a.len() > 0 && a[0] == '-' {
            ArgsOutcome::Fail("unknown flag: "@ + a)
        } else if st.input is Some {
            ArgsOutcome::Fail("unexpected argument: "@ + a)
        } else {
            scan_fit_args(ArgsState { input: Some(a), ..st }, tail)
        }
    }
}

/// Settings of the `fit` command.
#[derive(Debug)]
pub struct FitArgs {
    pub input: String,
    pub matrix: Option<(usize, usize)>,
    pub output: Option<String>,
    pub poles: Option<usize>,
    pub real_only: bool,
    pub weighted: bool,
    pub terms: Option<(bool, bool)>,
    pub state_space: bool,
}

impl FitArgs {
    pub open spec fn state(&self) -> ArgsState {
        ArgsState {
            input: Some(self.input@),
            matrix: self.matrix,
            output: match self.output {
                Some(o) => Some(o@),
                None => None,
            },
            poles: self.poles,
            real_only: self.real_only,
            weighted: self.weighted,
            terms: self.terms,
            state_space: self.state_space,
        }
    }
}

pub open spec fn views(args: Seq<String>) -> Seq<Seq<char>> {
    args.map_values(|a: String| a@)
}

pub open spec fn opt_view(o: Option<String>) -> Option<Seq<char>> {
    match o {
        Some(s) => Some(s@),
        None => None,
    }
}

/// Reads the arguments of the `fit` command: `Ok(None)` when help is asked for.
pub fn parse_fit_args(args: Vec<String>) -> (r: Result<Option<FitArgs>, String>)
    ensures
        scan_fit_args(initial_args(), views(args@)) matches ArgsOutcome::Help ==> r matches Ok(
            None,
        ),
        scan_fit_args(initial_args(), views(args@)) matches ArgsOutcome::Done(st) ==> (r matches Ok(
            Some(f),
        ) && f.state() == st),
        scan_fit_args(initial_args(), views(args@)) matches ArgsOutcome::Fail(m) ==> (r matches Err(
            e,
        ) && e@ == m),
{
    let ghost all = views(args@);
    let mut input: Option<String> = None;
    let mut matrix: Option<(usize, usize)> = None;
    let mut output: Option<String> = None;
    let mut poles: Option<usize> = None;
    let mut real_only = false;
    let mut weighted = false;
    let mut terms: Option<(bool, bool)> = None;
    let mut state_space = false;
    let mut i: usize = 0;
    assert(all.skip(0) == all);
    while i < args.len()
        invariant
            i <= args.len(),
            all == views(args@),
            scan_fit_args(initial_args(), all) == scan_fit_args(
                ArgsState {
                    input: opt_view(input),
                    matrix,
                    output: opt_view(output),
                    poles,
                    real_only,
                    weighted,
                    terms,
                    state_space,
                },
                all.skip(i as int),
            ),
        decreases args.len() - i,
    {
        let ghost st = ArgsState {
            input: opt_view(input),
            matrix,
            output: opt_view(output),
            poles,
            real_only,
            weighted,
            terms,
            state_space,
        };
        proof {
            reveal_strlit("--help");
            assert("--help"@ =~= seq!['-', '-', 'h', 'e', 'l', 'p']);
            reveal_strlit("-h");
            assert("-h"@ =~= seq!['-', 'h']);
            reveal_strlit("--poles");
            assert("--poles"@ =~= seq!['-', '-', 'p', 'o', 'l', 'e', 's']);
            reveal_strlit("--matrix");
            assert("--matrix"@ =~= seq!['-', '-', 'm', 'a', 't', 'r', 'i', 'x']);
            reveal_strlit("--real-only");
            assert("--real-only"@ =~= seq!['-', '-', 'r', 'e', 'a', 'l', '-', 'o', 'n', 'l', 'y']);
            reveal_strlit("--weighted");
            assert("--weighted"@ =~= seq!['-', '-', 'w', 'e', 'i', 'g', 'h', 't', 'e', 'd']);
            reveal_strlit("--terms");
            assert("--terms"@ =~= seq!['-', '-', 't', 'e', 'r', 'm', 's']);
            reveal_strlit("--state-space");
            assert("--state-space"@ =~= seq!['-', '-', 's', 't', 'a', 't', 'e', '-', 's', 'p', 'a', 'c', 'e']);
            reveal_strlit("--output");
            assert("--output"@ =~= seq!['-', '-', 'o', 'u', 't', 'p', 'u', 't']);
        }
        let ghost rest = all.skip(i as int);
        let ghost tail = rest.drop_first();
        assert(rest[0] == args@[i as int]@);
        assert(tail == all.skip(i + 1));
        let a = args[i].as_str();
        i = i + 1;
        if str_eq(a, "--help") || str_eq(a, "-h") {
            return Ok(None);
        } else if str_eq(a, "--poles") {
            if i >= args.len() {
                return Err(String::from_str("--poles requires a value"));
            }
            assert(tail[0] == args@[i as int]@);
            let n = match parse_positive_usize(args[i].as_str(), "pole count") {
                Ok(n) => n,
                Err(e) => return Err(e),
            };
            poles = Some(n);
            i = i + 1;
            assert(tail.drop_first() == all.skip(i as int));
        } else if str_eq(a, "--matrix") {
            if matrix.is_some() {
                return Err(String::from_str("--matrix may only be provided once"));
            }
            if args.len() - i < 2 {
                return Err(String::from_str("--matrix requires ROWS COLS"));
            }
            assert(tail[0] == args@[i as int]@);
            assert(tail[1] == args@[i + 1]@);
            let rows = match parse_positive_usize(args[i].as_str(), "matrix row count") {
                Ok(n) => n,
                Err(e) => return Err(e),
            };
            let cols = match parse_positive_usize(args[i + 1].as_str(), "matrix column count") {
                Ok(n) => n,
                Err(e) => return Err(e),
            };
            matrix = Some((rows, cols));
            i = i + 2;
            assert(tail.skip(2) == all.skip(i as int));
        } else if str_eq(a, "--real-only") {
            real_only = true;
        } else if str_eq(a, "--weighted") {
            weighted = true;
        } else if str_eq(a, "--terms") {
            if i >= args.len() {
                return Err(String::from_str("--terms requires a value"));
            }
            assert(tail[0] == args@[i as int]@);
            let t = match parse_fit_terms(args[i].as_str()) {
                Ok(t) => t,
                Err(e) => return Err(e),
            };
            terms = Some(t);
            i = i + 1;
            assert(tail.drop_first() == all.skip(i as int));
        } else if str_eq(a, "--state-space") {
            state_space = true;
        } else if str_eq(a, "--output") {
            if output.is_some() {
                return Err(String::from_str("--output may only be provided once"));
            }
            if i >= args.len() {
                return Err(String::from_str("--output requires a value"));
            }
            assert(tail[0] == args@[i as int]@);
            output = Some(args[i].clone());
            i = i + 1;
            assert(tail.drop_first() == all.skip(i as int));
        } else if starts_with_dash(a) {
            let mut m = String::from_str("unknown flag: ");
            m.append(a);
            return Err(m);
        } else {
            if input.is_some() {
                let mut m = String::from_str("unexpected argument: ");
                m.append(a);
                return Err(m);
            }
            input = Some(args[i - 1].clone());
        }
    }
    assert(all.skip(i as int).len() == 0);
    match input {
        Some(path) => Ok(
            Some(
                FitArgs { input: path, matrix, output, poles, real_only, weighted, terms, state_space },
            ),
        ),
        None => Err(String::from_str("missing input file")),
    }
}

/// Whether a string starts with `-`.
pub fn starts_with_dash(s: &str) -> (b: bool)
    ensures
        b == (s@.len() > 0 && s@[0] == '-'),
{
    let cs = chars_of(s);
    cs.len() > 0 && cs[0] == '-'
}

/// What the program is asked to do.
#[derive(Debug)]
pub enum Command {
    Help,
    Version,
    /// Run `fit` with the arguments after the command word.
    Fit,
    Fail(String),
}

/// The command named by the first argument.
pub fn parse_command(args: &Vec<String>) -> (c: Command)
    ensures
        args.len() == 0 ==> (c matches Command::Fail(m) && m@ == "missing command; try `vecfit --help`"@),
        args.len() > 0 && (args@[0]@ == "--help"@ || args@[0]@ == "-h"@) ==> c is Help,
        args.len() > 0 && (args@[0]@ == "--version"@ || args@[0]@ == "-V"@) ==> c is Version,
        args.len() > 0 && args@[0]@ == "fit"@ ==> c is Fit,
        args.len() > 0 && !(args@[0]@ == "--help"@ || args@[0]@ == "-h"@ || args@[0]@ == "--version"@
            || args@[0]@ == "-V"@ || args@[0]@ == "fit"@) ==> (c matches Command::Fail(m) && m@ == (
        if args@[0]@.len() > 0 && args@[0]@[0] == '-' {
            "unknown flag: "@
        } else {
            "unknown command: "@
        }) + args@[0]@),
{
    if args.len() == 0 {
        return Command::Fail(String::from_str("missing command; try `vecfit --help`"));
    }
    let a = args[0].as_str();
    proof {
        reveal_strlit("--help");
        assert("--help"@ =~= seq!['-', '-', 'h', 'e', 'l', 'p']);
        reveal_strlit("-h");
        assert("-h"@ =~= seq!['-', 'h']);
        reveal_strlit("--version");
        assert("--version"@ =~= seq!['-', '-', 'v', 'e', 'r', 's', 'i', 'o', 'n']);
        reveal_strlit("-V");
        assert("-V"@ =~= seq!['-', 'V']);
        reveal_strlit("fit");
        assert("fit"@ =~= seq!['f', 'i', 't']);
    }
    if str_eq(a, "--help") || str_eq(a, "-h") {
        Command::Help
    } else if str_eq(a, "--version") || str_eq(a, "-V") {
        Command::Version
    } else if str_eq(a, "fit") {
        Command::Fit
    } else if starts_with_dash(a) {
        let mut m = String::from_str("unknown flag: ");
        m.append(a);
        Command::Fail(m)
    } else {
        let mut m = String::from_str("unknown command: ");
        m.append(a);
        Command::Fail(m)
    }
}

} // verus!
verus! {

proof fn lemma_decimal_digits(n: nat)
    ensures
        decimal(n).len() > 0,
        all_digits(decimal(n)),
        digits_value(decimal(n)) == n,
    decreases n,
{
    reveal_with_fuel(decimal, 2);
    if n < 10 {
        let s = decimal(n);
        assert(s == seq![digit(n)]);
        assert((digit(n) as u32) == 48 + n);
        assert(s.drop_last() == Seq::<char>::empty());
        assert(s.last() == digit(n));
        assert(digits_value(s) == digits_value(s.drop_last()) * 10 + ((s.last() as u32) - 48) as nat);
        assert(digits_value(Seq::<char>::empty()) == 0);
    } else {
        lemma_decimal_digits(n / 10);
        let s = decimal(n);
        let d = n % 10;
        assert(s == decimal(n / 10).push(digit(d)));
        assert((digit(d) as u32) == 48 + d);
        assert(s.drop_last() == decimal(n / 10));
        assert forall|i: int| 0 <= i < s.len() implies is_digit(#[trigger] s[i]) by {
            if i < s.len() - 1 {
                assert(s[i] == decimal(n / 10)[i]);
            }
        }
        assert(s.last() == digit(d));
        assert(digits_value(s) == digits_value(s.drop_last()) * 10 + ((s.last() as u32) - 48) as nat);
        assert((n / 10) * 10 + d == n) by (nonlinear_arith)
            requires
                d == n % 10,
        ;
    }
}

/// Reading back the decimal rendering of a count gives the count: what `Display`
/// writes, `parse::<usize>` reads.
pub proof fn law_parse_decimal(n: usize)
    ensures
        parse_usize(decimal(n as nat)) == Some(n),
{
    lemma_decimal_digits(n as nat);
    let s = decimal(n as nat);
    assert(is_digit(s[0]));
    assert(unsigned_part(s) == s);
}

} // verus!

verus! {

proof fn lemma_flag_literals()
    ensures
        "--help"@ =~= seq!['-', '-', 'h', 'e', 'l', 'p'],
        "-h"@ =~= seq!['-', 'h'],
        "--poles"@ =~= seq!['-', '-', 'p', 'o', 'l', 'e', 's'],
        "--matrix"@ =~= seq!['-', '-', 'm', 'a', 't', 'r', 'i', 'x'],
        "--real-only"@ =~= seq!['-', '-', 'r', 'e', 'a', 'l', '-', 'o', 'n', 'l', 'y'],
        "--weighted"@ =~= seq!['-', '-', 'w', 'e', 'i', 'g', 'h', 't', 'e', 'd'],
        "--terms"@ =~= seq!['-', '-', 't', 'e', 'r', 'm', 's'],
        "--state-space"@ =~= seq!['-', '-', 's', 't', 'a', 't', 'e', '-', 's', 'p', 'a', 'c', 'e'],
        "--output"@ =~= seq!['-', '-', 'o', 'u', 't', 'p', 'u', 't'],
{
    reveal_strlit("--help");
    reveal_strlit("-h");
    reveal_strlit("--poles");
    reveal_strlit("--matrix");
    reveal_strlit("--real-only");
    reveal_strlit("--weighted");
    reveal_strlit("--terms");
    reveal_strlit("--state-space");
    reveal_strlit("--output");
}

proof fn lemma_scan_input(st: ArgsState, a: Seq<char>, tail: Seq<Seq<char>>)
    requires
        a.len() > 0,
        a[0] != '-',
        st.input is None,
    ensures
        scan_fit_args(st, seq![a] + tail) == scan_fit_args(ArgsState { input: Some(a), ..st }, tail),
{
    lemma_flag_literals();
    let all = seq![a] + tail;
    assert(all[0] == a);
    assert(all.drop_first() =~= tail);
    assert(a != "--help"@ && a != "-h"@ && a != "--poles"@ && a != "--matrix"@);
    assert(a != "--real-only"@ && a != "--weighted"@ && a != "--terms"@);
    assert(a != "--state-space"@ && a != "--output"@);
}

proof fn lemma_scan_matrix(st: ArgsState, rows: Seq<char>, cols: Seq<char>, r: usize, c: usize, tail: Seq<Seq<char>>)
    requires
        st.matrix is None,
        parse_usize(rows) == Some(r),
        r > 0,
        parse_usize(cols) == Some(c),
        c > 0,
    ensures
        scan_fit_args(st, seq![("--matrix"@), rows, cols] + tail) == scan_fit_args(
            ArgsState { matrix: Some((r, c)), ..st },
            tail,
        ),
{
    lemma_flag_literals();
    let all = seq![("--matrix"@), rows, cols] + tail;
    assert(all[0] == "--matrix"@);
    assert(all.drop_first() =~= seq![rows, cols] + tail);
    assert(all.drop_first()[0] == rows);
    assert(all.drop_first()[1] == cols);
    assert(all.drop_first().skip(2) =~= tail);
    assert("--matrix"@ != "--help"@ && "--matrix"@ != "-h"@ && "--matrix"@ != "--poles"@);
}

/// `--matrix ROWS COLS` gives the row count first and the column count second:
/// for an input file and positive counts, `fit INPUT --matrix R C` and
/// `fit --matrix R C INPUT` both read a matrix of `R` rows and `C` columns.
pub proof fn law_matrix_rows_then_cols(
    input: Seq<char>,
    rows: Seq<char>,
    cols: Seq<char>,
    r: usize,
    c: usize,
)
    requires
        input.len() > 0,
        input[0] != '-',
        parse_usize(rows) == Some(r),
        r > 0,
        parse_usize(cols) == Some(c),
        c > 0,
    ensures
        scan_fit_args(initial_args(), seq![input, "--matrix"@, rows, cols]) == ArgsOutcome::Done(
            ArgsState { input: Some(input), matrix: Some((r, c)), ..initial_args() },
        ),
        scan_fit_args(initial_args(), seq![("--matrix"@), rows, cols, input]) == ArgsOutcome::Done(
            ArgsState { input: Some(input), matrix: Some((r, c)), ..initial_args() },
        ),
{
    let m = "--matrix"@;
    let done = ArgsState { input: Some(input), matrix: Some((r, c)), ..initial_args() };
    let empty = Seq::<Seq<char>>::empty();
    lemma_scan_input(initial_args(), input, seq![m, rows, cols]);
    assert(seq![input] + seq![m, rows, cols] =~= seq![input, m, rows, cols]);
    lemma_scan_matrix(ArgsState { input: Some(input), ..initial_args() }, rows, cols, r, c, empty);
    assert(seq![m, rows, cols] + empty =~= seq![m, rows, cols]);
    assert(scan_fit_args(done, empty) == ArgsOutcome::Done(done));
    lemma_scan_matrix(initial_args(), rows, cols, r, c, seq![input]);
    assert(seq![m, rows, cols] + seq![input] =~= seq![m, rows, cols, input]);
    let with_matrix = ArgsState { matrix: Some((r, c)), ..initial_args() };
    lemma_scan_input(with_matrix, input, empty);
    assert(seq![input] + empty =~= seq![input]);
}

} // verus!

