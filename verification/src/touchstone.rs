//! Touchstone v1 (`.sNp`) scanning: the option line, comments, data-line grouping
//! and port-count inference. The numeric tokens are read by the caller; this module
//! decides which tokens belong together and what the option line says.

use vstd::prelude::*;

use crate::error::{error_from, fails_with, ErrorKind, VecfitError};
use crate::shape::{flatten, is_root_of, is_square, isqrt, square_root, Shape};
use crate::cli::{law_parse_decimal, parse_usize, parse_usize_text};
use crate::text::{
    chars_eq, chars_of, decimal, line_bounds, lines, lower_all, lower_range, push_decimal,
    string_of, trim, trim_bounds, upper_all, upper_range, words, words_of,
};

verus! {

/// Frequency unit used in a Touchstone option line.
#[derive(Debug, Clone, Copy, PartialEq, Eq, Structural)]
pub enum FrequencyUnit {
    Hz,
    KHz,
    MHz,
    GHz,
}

/// Network parameter type.
#[derive(Debug, Clone, Copy, PartialEq, Eq, Structural)]
pub enum ParameterType {
    S,
    Y,
    Z,
    G,
    H,
    T,
}

/// Data format for complex value pairs in a Touchstone file.
#[derive(Debug, Clone, Copy, PartialEq, Eq, Structural)]
pub enum DataFormat {
    /// Real / Imaginary
    RI,
    /// Magnitude / Angle (degrees)
    MA,
    /// Decibels / Angle (degrees)
    DB,
}

/// How many hertz one of a unit is.
pub open spec fn hz_per_unit(u: FrequencyUnit) -> nat {
    match u {
        FrequencyUnit::Hz => 1,
        FrequencyUnit::KHz => 1_000,
        FrequencyUnit::MHz => 1_000_000,
        FrequencyUnit::GHz => 1_000_000_000,
    }
}

/// The frequency unit a token names, compared without ASCII case.
pub open spec fn frequency_unit_of(tok: Seq<char>) -> Option<FrequencyUnit> {
    let u = upper_all(tok);
    if u == "HZ"@ {
        Some(FrequencyUnit::Hz)
    } else if u == "KHZ"@ {
        Some(FrequencyUnit::KHz)
    } else if u == "MHZ"@ {
        Some(FrequencyUnit::MHz)
    } else if u == "GHZ"@ {
        Some(FrequencyUnit::GHz)
    } else {
        None
    }
}

/// The parameter type a token names, compared without ASCII case.
pub open spec fn parameter_type_of(tok: Seq<char>) -> Option<ParameterType> {
    let u = upper_all(tok);
    if u == "S"@ {
        Some(ParameterType::S)
    } else if u == "Y"@ {
        Some(ParameterType::Y)
    } else if u == "Z"@ {
        Some(ParameterType::Z)
    } else if u == "G"@ {
        Some(ParameterType::G)
    } else if u == "H"@ {
        Some(ParameterType::H)
    } else if u == "T"@ {
        Some(ParameterType::T)
    } else {
        None
    }
}

/// The data format a token names, compared without ASCII case.
pub open spec fn data_format_of(tok: Seq<char>) -> Option<DataFormat> {
    let u = upper_all(tok);
    if u == "RI"@ {
        Some(DataFormat::RI)
    } else if u == "MA"@ {
        Some(DataFormat::MA)
    } else if u == "DB"@ {
        Some(DataFormat::DB)
    } else {
        None
    }
}

fn upper_of(s: &str) -> (u: Vec<char>)
    ensures
        u@ == upper_all(s@),
{
    let cs = chars_of(s);
    let u = upper_range(&cs, 0, cs.len());
    assert(cs@.subrange(0, cs@.len() as int) == cs@);
    u
}

fn unknown(prefix: &str, s: &str) -> (e: VecfitError)
    ensures
        e.kind() == ErrorKind::Touchstone,
        e.message() == prefix@ + s@,
{
    let mut m = String::from_str(prefix);
    m.append(s);
    VecfitError::Touchstone(m)
}

impl FrequencyUnit {
    /// The unit a token names: `Hz`, `kHz`, `MHz` or `GHz` in any ASCII case.
    pub fn from_token(s: &str) -> (r: Result<FrequencyUnit, VecfitError>)
        ensures
            frequency_unit_of(s@) matches Some(u) ==> r == Ok::<FrequencyUnit, VecfitError>(u),
            frequency_unit_of(s@) is None ==> fails_with(
                r,
                ErrorKind::Touchstone,
                "unknown frequency unit: "@ + s@,
            ),
    {
        let u = upper_of(s);
        if chars_eq(&u, "HZ") {
            Ok(FrequencyUnit::Hz)
        } else if chars_eq(&u, "KHZ") {
            Ok(FrequencyUnit::KHz)
        } else if chars_eq(&u, "MHZ") {
            Ok(FrequencyUnit::MHz)
        } else if chars_eq(&u, "GHZ") {
            Ok(FrequencyUnit::GHz)
        } else {
            Err(unknown("unknown frequency unit: ", s))
        }
    }

    /// How many hertz one unit is.
    pub fn hz_multiplier(self) -> (m: u64)
        ensures
            m == hz_per_unit(self),
    {
        match self {
            FrequencyUnit::Hz => 1,
            FrequencyUnit::KHz => 1_000,
            FrequencyUnit::MHz => 1_000_000,
            FrequencyUnit::GHz => 1_000_000_000,
        }
    }
}

impl ParameterType {
    /// The type a token names: `S`, `Y`, `Z`, `G`, `H` or `T` in any ASCII case.
    pub fn from_token(s: &str) -> (r: Result<ParameterType, VecfitError>)
        ensures
            parameter_type_of(s@) matches Some(p) ==> r == Ok::<ParameterType, VecfitError>(p),
            parameter_type_of(s@) is None ==> fails_with(
                r,
                ErrorKind::Touchstone,
                "unknown parameter type: "@ + s@,
            ),
    {
        let u = upper_of(s);
        if chars_eq(&u, "S") {
            Ok(ParameterType::S)
        } else if chars_eq(&u, "Y") {
            Ok(ParameterType::Y)
        } else if chars_eq(&u, "Z") {
            Ok(ParameterType::Z)
        } else if chars_eq(&u, "G") {
            Ok(ParameterType::G)
        } else if chars_eq(&u, "H") {
            Ok(ParameterType::H)
        } else if chars_eq(&u, "T") {
            Ok(ParameterType::T)
        } else {
            Err(unknown("unknown parameter type: ", s))
        }
    }
}

impl DataFormat {
    /// The format a token names: `RI`, `MA` or `DB` in any ASCII case.
    pub fn from_token(s: &str) -> (r: Result<DataFormat, VecfitError>)
        ensures
            data_format_of(s@) matches Some(f) ==> r == Ok::<DataFormat, VecfitError>(f),
            data_format_of(s@) is None ==> fails_with(
                r,
                ErrorKind::Touchstone,
                "unknown data format: "@ + s@,
            ),
    {
        let u = upper_of(s);
        if chars_eq(&u, "RI") {
            Ok(DataFormat::RI)
        } else if chars_eq(&u, "MA") {
            Ok(DataFormat::MA)
        } else if chars_eq(&u, "DB") {
            Ok(DataFormat::DB)
        } else {
            Err(unknown("unknown data format: ", s))
        }
    }
}

impl core::str::FromStr for FrequencyUnit {
    type Err = VecfitError;

    fn from_str(s: &str) -> (r: Result<FrequencyUnit, VecfitError>)
        ensures
            frequency_unit_of(s@) matches Some(u) ==> r == Ok::<FrequencyUnit, VecfitError>(u),
            frequency_unit_of(s@) is None ==> fails_with(r, ErrorKind::Touchstone, "unknown frequency unit: "@ + s@),
    {
        FrequencyUnit::from_token(s)
    }
}

impl core::str::FromStr for ParameterType {
    type Err = VecfitError;

    fn from_str(s: &str) -> (r: Result<ParameterType, VecfitError>)
        ensures
            parameter_type_of(s@) matches Some(u) ==> r == Ok::<ParameterType, VecfitError>(u),
            parameter_type_of(s@) is None ==> fails_with(r, ErrorKind::Touchstone, "unknown parameter type: "@ + s@),
    {
        ParameterType::from_token(s)
    }
}

impl core::str::FromStr for DataFormat {
    type Err = VecfitError;

    fn from_str(s: &str) -> (r: Result<DataFormat, VecfitError>)
        ensures
            data_format_of(s@) matches Some(u) ==> r == Ok::<DataFormat, VecfitError>(u),
            data_format_of(s@) is None ==> fails_with(r, ErrorKind::Touchstone, "unknown data format: "@ + s@),
    {
        DataFormat::from_token(s)
    }
}

/// What the tokens of an option line have said so far.
pub ghost struct OptionState {
    pub frequency_unit: Option<FrequencyUnit>,
    pub parameter_type: Option<ParameterType>,
    pub data_format: Option<DataFormat>,
    /// The values given after each `R`, in order.
    pub impedances: Seq<Seq<char>>,
    /// The message of the error that ended the scan.
    pub error: Option<Seq<char>>,
}

pub open spec fn empty_options() -> OptionState {
    OptionState {
        frequency_unit: None,
        parameter_type: None,
        data_format: None,
        impedances: seq![],
        error: None,
    }
}

/// Reads option-line tokens from left to right: `R` takes the next token as the
/// reference impedance, the other tokens name a unit, a parameter type or a format.
pub open spec fn scan_option_tokens(st: OptionState, rest: Seq<Seq<char>>) -> OptionState
    decreases rest.len(),
{
    if rest.len() == 0 {
        st
    } else {
        let tok = upper_all(rest[0]);
        if tok == "R"@ {
            if rest.len() < 2 {
                OptionState { error: Some("missing reference impedance value after R"@), ..st }
            } else {
                scan_option_tokens(
                    OptionState { impedances: st.impedances.push(rest[1]), ..st },
                    rest.skip(2),
                )
            }
        } else if frequency_unit_of(tok) is Some {
            scan_option_tokens(
                OptionState { frequency_unit: frequency_unit_of(tok), ..st },
                rest.drop_first(),
            )
        } else if parameter_type_of(tok) is Some {
            scan_option_tokens(
                OptionState { parameter_type: parameter_type_of(tok), ..st },
                rest.drop_first(),
            )
        } else if data_format_of(tok) is Some {
            scan_option_tokens(
                OptionState { data_format: data_format_of(tok), ..st },
                rest.drop_first(),
            )
        } else {
            OptionState { error: Some("unrecognized token in option line: "@ + tok), ..st }
        }
    }
}

/// What an option line `# ...` says: the tokens after the `#`, read in order.
pub open spec fn option_line(line: Seq<char>) -> OptionState {
    let tokens = words(line.drop_first());
    if tokens.len() == 0 {
        OptionState {
            error: Some(
                "option line '#' contains no parameters; expected at least a frequency unit"@,
            ),
            ..empty_options()
        }
    } else {
        scan_option_tokens(empty_options(), tokens)
    }
}

/// The result of reading an option line. The reference-impedance values are
/// numbers for the caller to read, in order, before it reports `error`.
#[derive(Debug)]
pub struct OptionScan {
    pub frequency_unit: Option<FrequencyUnit>,
    pub parameter_type: Option<ParameterType>,
    pub data_format: Option<DataFormat>,
    pub impedance_tokens: Vec<String>,
    pub error: Option<VecfitError>,
}

impl OptionScan {
    pub open spec fn state(&self) -> OptionState {
        OptionState {
            frequency_unit: self.frequency_unit,
            parameter_type: self.parameter_type,
            data_format: self.data_format,
            impedances: self.impedance_tokens@.map_values(|t: String| t@),
            error: match self.error {
                Some(e) => Some(e.message()),
                None => None,
            },
        }
    }

    /// Every error it carries is a Touchstone error.
    pub open spec fn errors_are_touchstone(&self) -> bool {
        self.error matches Some(e) ==> e.kind() == ErrorKind::Touchstone
    }
}

/// The units of a Touchstone file when its option line leaves them out: GHz,
/// S-parameters, magnitude/angle.
pub open spec fn default_units() -> (FrequencyUnit, ParameterType, DataFormat) {
    (FrequencyUnit::GHz, ParameterType::S, DataFormat::MA)
}

impl OptionScan {
    /// The units the option line gives, each one it leaves out taken from the defaults.
    pub fn units_or_defaults(&self) -> (u: (FrequencyUnit, ParameterType, DataFormat))
        ensures
            u.0 == match self.frequency_unit {
                Some(f) => f,
                None => default_units().0,
            },
            u.1 == match self.parameter_type {
                Some(p) => p,
                None => default_units().1,
            },
            u.2 == match self.data_format {
                Some(d) => d,
                None => default_units().2,
            },
    {
        let f = match self.frequency_unit {
            Some(f) => f,
            None => FrequencyUnit::GHz,
        };
        let p = match self.parameter_type {
            Some(p) => p,
            None => ParameterType::S,
        };
        let d = match self.data_format {
            Some(d) => d,
            None => DataFormat::MA,
        };
        (f, p, d)
    }
}

/// The units of a file without an option line.
pub fn units_without_option_line() -> (u: (FrequencyUnit, ParameterType, DataFormat))
    ensures
        u == default_units(),
{
    (FrequencyUnit::GHz, ParameterType::S, DataFormat::MA)
}

proof fn literal_facts()
    ensures
        "R"@ =~= seq!['R'],
{
    reveal_strlit("R");
}

/// Reads the option line `cs[from..to]`, which starts with `#`.
fn scan_option_chars(cs: &Vec<char>, from: usize, to: usize) -> (r: OptionScan)
    requires
        from < to <= cs.len(),
    ensures
        r.state() == option_line(cs@.subrange(from as int, to as int)),
        r.errors_are_touchstone(),
{
    let tokens = words_of(cs, from + 1, to);
    let ghost toks = tokens@.map_values(|t: String| t@);
    assert(cs@.subrange(from as int, to as int).drop_first() == cs@.subrange(from + 1, to as int));
    let mut scan = OptionScan {
        frequency_unit: None,
        parameter_type: None,
        data_format: None,
        impedance_tokens: Vec::new(),
        error: None,
    };
    assert(scan.impedance_tokens@.map_values(|t: String| t@) == Seq::<Seq<char>>::empty());
    if tokens.len() == 0 {
        scan.error = Some(
            error_from(
                ErrorKind::Touchstone,
                "option line '#' contains no parameters; expected at least a frequency unit",
            ),
        );
        return scan;
    }
    proof {
        literal_facts();
    }
    let mut i: usize = 0;
    assert(toks.skip(0) == toks);
    assert(option_line(cs@.subrange(from as int, to as int)) == scan_option_tokens(
        empty_options(),
        toks,
    ));
    while i < tokens.len()
        invariant
            i <= tokens.len(),
            toks == tokens@.map_values(|t: String| t@),
            option_line(cs@.subrange(from as int, to as int)) == scan_option_tokens(
                empty_options(),
                toks,
            ),
            scan.error is None,
            scan_option_tokens(empty_options(), toks) == scan_option_tokens(
                scan.state(),
                toks.skip(i as int),
            ),
            "R"@ =~= seq!['R'],
        decreases tokens.len() - i,
    {
        let ghost rest = toks.skip(i as int);
        assert(rest[0] == tokens@[i as int]@);
        assert(rest.drop_first() == toks.skip(i + 1));
        let tok = upper_of(tokens[i].as_str());
        if chars_eq(&tok, "R") {
            if i + 1 >= tokens.len() {
                scan.error = Some(
                    error_from(ErrorKind::Touchstone, "missing reference impedance value after R"),
                );
                return scan;
            }
            assert(rest[1] == tokens@[i + 1]@);
            let ghost before = scan.impedance_tokens@.map_values(|t: String| t@);
            scan.impedance_tokens.push(tokens[i + 1].clone());
            assert(scan.impedance_tokens@.map_values(|t: String| t@) == before.push(rest[1]));
            i = i + 2;
            assert(rest.skip(2) == toks.skip(i as int));
        } else {
            let tok_text = string_of(&tok, 0, tok.len());
            assert(tok@.subrange(0, tok@.len() as int) == tok@);
            match FrequencyUnit::from_token(tok_text.as_str()) {
                Ok(u) => {
                    scan.frequency_unit = Some(u);
                },
                Err(_) => match ParameterType::from_token(tok_text.as_str()) {
                    Ok(p) => {
                        scan.parameter_type = Some(p);
                    },
                    Err(_) => match DataFormat::from_token(tok_text.as_str()) {
                        Ok(f) => {
                            scan.data_format = Some(f);
                        },
                        Err(_) => {
                            scan.error = Some(
                                unknown("unrecognized token in option line: ", tok_text.as_str()),
                            );
                            return scan;
                        },
                    },
                },
            }
            i = i + 1;
        }
    }
    assert(toks.skip(i as int).len() == 0);
    scan
}

/// Reads an option line `# ...`.
pub fn scan_option_line(line: &str) -> (r: OptionScan)
    requires
        line@.len() > 0,
    ensures
        r.state() == option_line(line@),
        r.errors_are_touchstone(),
{
    let cs = chars_of(line);
    assert(cs@.subrange(0, cs@.len() as int) == cs@);
    scan_option_chars(&cs, 0, cs.len())
}

/// The part of a line before its first `!`.
pub open spec fn before_bang(line: Seq<char>) -> Seq<char>
    decreases line.len(),
{
    if line.len() == 0 {
        line
    } else if line[0] == '!' {
        seq![]
    } else {
        seq![line[0]] + before_bang(line.drop_first())
    }
}

proof fn lemma_before_bang(s: Seq<char>, j: int)
    requires
        0 <= j <= s.len(),
        forall|k: int| 0 <= k < j ==> s[k] != '!',
        j == s.len() || s[j] == '!',
    ensures
        before_bang(s) == s.take(j),
    decreases j,
{
    if j == 0 {
        if s.len() == 0 {
            assert(s.take(0) == s);
        } else {
            assert(s.take(0) == Seq::<char>::empty());
        }
    } else {
        lemma_before_bang(s.drop_first(), j - 1);
        assert(seq![s[0]] + s.drop_first().take(j - 1) == s.take(j));
    }
}

/// A line with its comment removed and its whitespace trimmed.
pub open spec fn clean_line(line: Seq<char>) -> Seq<char> {
    trim(before_bang(line))
}

/// The state of reading a Touchstone file line by line.
pub ghost struct PreState {
    pub option: Option<OptionState>,
    pub data: Seq<Seq<char>>,
    pub error: Option<Seq<char>>,
}

/// Reads cleaned lines: blank ones are skipped, the first `#` line is the option
/// line, a second one is an error, and the rest are data lines. Reading stops at
/// the first error.
pub open spec fn pre_scan(st: PreState, rest: Seq<Seq<char>>) -> PreState
    decreases rest.len(),
{
    if rest.len() == 0 {
        st
    } else {
        let c = clean_line(rest[0]);
        if c.len() == 0 {
            pre_scan(st, rest.drop_first())
        } else if c[0] == '#' {
            if st.option is Some {
                PreState { error: Some("multiple option lines found"@), ..st }
            } else if option_line(c).error is Some {
                PreState { option: Some(option_line(c)), ..st }
            } else {
                pre_scan(PreState { option: Some(option_line(c)), ..st }, rest.drop_first())
            }
        } else {
            pre_scan(PreState { data: st.data.push(c), ..st }, rest.drop_first())
        }
    }
}

/// How a Touchstone text reads, line by line.
pub open spec fn preprocess_text(text: Seq<char>) -> PreState {
    pre_scan(PreState { option: None, data: seq![], error: None }, lines(text))
}

/// A Touchstone text with its comments and blank lines removed: the option line
/// read (when there is one) and the data lines, trimmed.
#[derive(Debug)]
pub struct Preprocessed {
    pub option: Option<OptionScan>,
    pub data_lines: Vec<String>,
    pub error: Option<VecfitError>,
}

impl Preprocessed {
    pub open spec fn state(&self) -> PreState {
        PreState {
            option: match self.option {
                Some(o) => Some(o.state()),
                None => None,
            },
            data: self.data_lines@.map_values(|l: String| l@),
            error: match self.error {
                Some(e) => Some(e.message()),
                None => None,
            },
        }
    }
}

/// Strips comments, finds the option line, and collects the data lines.
pub fn preprocess(text: &str) -> (r: Preprocessed)
    ensures
        r.state() == preprocess_text(text@),
        r.error matches Some(e) ==> e.kind() == ErrorKind::Touchstone,
        r.option matches Some(o) ==> o.errors_are_touchstone(),
{
    let cs = chars_of(text);
    let bounds = line_bounds(&cs);
    let ghost ls = bounds@.map_values(|b: (usize, usize)| cs@.subrange(b.0 as int, b.1 as int));
    assert(ls == lines(text@));
    let mut out = Preprocessed { option: None, data_lines: Vec::new(), error: None };
    assert(out.data_lines@.map_values(|l: String| l@) == Seq::<Seq<char>>::empty());
    let mut k: usize = 0;
    assert(ls.skip(0) == ls);
    while k < bounds.len()
        invariant
            k <= bounds.len(),
            ls == bounds@.map_values(|b: (usize, usize)| cs@.subrange(b.0 as int, b.1 as int)),
            forall|j: int|
                0 <= j < bounds.len() ==> (#[trigger] bounds@[j]).0 <= bounds@[j].1 && bounds@[j].1
                    <= cs.len(),
            out.error is None,
            out.option matches Some(o) ==> o.error is None && o.errors_are_touchstone(),
            preprocess_text(text@) == pre_scan(out.state(), ls.skip(k as int)),
        decreases bounds.len() - k,
    {
        let ghost rest = ls.skip(k as int);
        assert(rest[0] == ls[k as int]);
        assert(rest.drop_first() == ls.skip(k + 1));
        let (a, b) = bounds[k];
        assert(ls[k as int] == cs@.subrange(a as int, b as int));
        let mut e = a;
        while e < b && cs[e] != '!'
            invariant
                a <= e <= b <= cs.len(),
                forall|j: int| a <= j < e ==> cs@[j] != '!',
            decreases b - e,
        {
            e = e + 1;
        }
        proof {
            let line = cs@.subrange(a as int, b as int);
            assert forall|j: int| 0 <= j < e - a implies line[j] != '!' by {
                assert(line[j] == cs@[a + j]);
            }
            if e < b {
                assert(line[e - a] == cs@[e as int]);
            }
            lemma_before_bang(line, e - a);
            assert(line.take(e - a) == cs@.subrange(a as int, e as int));
        }
        let (p, q) = trim_bounds(&cs, a, e);
        let ghost c = cs@.subrange(p as int, q as int);
        assert(c == clean_line(ls[k as int]));
        if p < q {
            assert(c[0] == cs@[p as int]);
            if cs[p] == '#' {
                if out.option.is_some() {
                    out.error = Some(
                        error_from(ErrorKind::Touchstone, "multiple option lines found"),
                    );
                    return out;
                }
                let scan = scan_option_chars(&cs, p, q);
                let failed = scan.error.is_some();
                out.option = Some(scan);
                if failed {
                    return out;
                }
            } else {
                let ghost before = out.data_lines@.map_values(|l: String| l@);
                out.data_lines.push(string_of(&cs, p, q));
                assert(out.data_lines@.map_values(|l: String| l@) == before.push(c));
            }
        }
        k = k + 1;
    }
    assert(ls.skip(k as int).len() == 0);
    out
}

/// A line's tokens viewed as a sequence.
pub open spec fn line_view<T>(r: Result<Vec<T>, VecfitError>) -> Result<Seq<T>, VecfitError> {
    match r {
        Ok(v) => Ok(v@),
        Err(e) => Err(e),
    }
}

pub open spec fn lines_view<T>(lines: Seq<Result<Vec<T>, VecfitError>>) -> Seq<
    Result<Seq<T>, VecfitError>,
> {
    lines.map_values(|r: Result<Vec<T>, VecfitError>| line_view(r))
}

/// The outcome of looking for a square total of value pairs on continuation lines.
pub ghost enum PortSearch {
    Found(nat),
    NotFound,
    Failed(VecfitError),
}

/// Adds the pairs of the lines from `li` on to `total` until the total is a square
/// of at least 2; a line with an odd token count starts a new frequency point and
/// ends the search.
pub open spec fn extra_pairs<T>(lines: Seq<Result<Seq<T>, VecfitError>>, li: int, total: nat) -> PortSearch
    decreases lines.len() - li,
{
    if li < 0 || li >= lines.len() {
        PortSearch::NotFound
    } else {
        match lines[li] {
            Err(e) => PortSearch::Failed(e),
            Ok(t) => if t.len() == 0 {
                extra_pairs(lines, li + 1, total)
            } else if t.len() % 2 != 0 {
                PortSearch::NotFound
            } else {
                let tot = total + t.len() / 2;
                if is_square(tot) && square_root(tot) >= 2 {
                    PortSearch::Found(square_root(tot))
                } else {
                    extra_pairs(lines, li + 1, tot)
                }
            },
        }
    }
}

/// The outcome of port-count inference.
pub ghost enum PortsOutcome {
    Ports(nat),
    /// A token error passed on from a data line.
    Passed(VecfitError),
    /// A Touchstone error with this message.
    Fails(Seq<char>),
}

pub open spec fn not_square_msg(pairs: nat) -> Seq<char> {
    "cannot infer port count: "@ + decimal(pairs) + " parameter pairs on first line is not a perfect square"@
}

/// The port count implied by the value pairs of the first frequency point: the
/// pairs of the first line when they form a square, otherwise (for at most 4 pairs)
/// the first square of at least 2 reached by adding continuation lines.
pub open spec fn infer_ports_spec<T>(lines: Seq<Result<Seq<T>, VecfitError>>) -> PortsOutcome {
    if lines.len() == 0 {
        PortsOutcome::Fails("no data lines found"@)
    } else {
        match lines[0] {
            Err(e) => PortsOutcome::Passed(e),
            Ok(t) => if t.len() < 3 {
                PortsOutcome::Fails("first data line has too few tokens to infer port count"@)
            } else if (t.len() - 1) % 2 != 0 {
                PortsOutcome::Fails(
                    "odd number of data values ("@ + decimal((t.len() - 1) as nat)
                        + ") on first data line"@,
                )
            } else {
                let pairs = ((t.len() - 1) / 2) as nat;
                if is_square(pairs) {
                    PortsOutcome::Ports(square_root(pairs))
                } else if pairs <= 4 {
                    match extra_pairs(lines, 1, pairs) {
                        PortSearch::Found(s) => PortsOutcome::Ports(s),
                        PortSearch::Failed(e) => PortsOutcome::Passed(e),
                        PortSearch::NotFound => PortsOutcome::Fails(not_square_msg(pairs)),
                    }
                } else {
                    PortsOutcome::Fails(not_square_msg(pairs))
                }
            },
        }
    }
}

/// The total number of tokens on the lines that were read.
pub open spec fn token_total<T>(lines: Seq<Result<Seq<T>, VecfitError>>) -> nat
    decreases lines.len(),
{
    if lines.len() == 0 {
        0
    } else {
        token_total(lines.drop_last()) + match lines.last() {
            Ok(t) => t.len(),
            Err(_) => 0,
        }
    }
}

proof fn lemma_token_total_prefix<T>(lines: Seq<Result<Seq<T>, VecfitError>>, k: int)
    requires
        0 <= k <= lines.len(),
    ensures
        token_total(lines.take(k)) <= token_total(lines),
    decreases lines.len() - k,
{
    if k < lines.len() {
        lemma_token_total_prefix(lines, k + 1);
        assert(lines.take(k + 1).drop_last() == lines.take(k));
    } else {
        assert(lines.take(k) == lines);
    }
}

proof fn lemma_token_total_step<T>(lines: Seq<Result<Seq<T>, VecfitError>>, k: int)
    requires
        0 <= k < lines.len(),
    ensures
        token_total(lines.take(k + 1)) == token_total(lines.take(k)) + match lines[k] {
            Ok(t) => t.len(),
            Err(_) => 0,
        },
{
    assert(lines.take(k + 1).drop_last() == lines.take(k));
    assert(lines.take(k + 1).last() == lines[k]);
}

/// The port count implied by the first data lines, each given as its numeric
/// tokens or the error met reading them.
pub fn infer_ports_from_data<T>(lines: &Vec<Result<Vec<T>, VecfitError>>) -> (r: Result<
    usize,
    VecfitError,
>)
    requires
        token_total(lines_view(lines@)) <= usize::MAX,
    ensures
        infer_ports_spec(lines_view(lines@)) matches PortsOutcome::Ports(n) ==> r == Ok::<
            usize,
            VecfitError,
        >(n as usize),
        infer_ports_spec(lines_view(lines@)) matches PortsOutcome::Passed(e) ==> r == Err::<
            usize,
            VecfitError,
        >(e),
        infer_ports_spec(lines_view(lines@)) matches PortsOutcome::Fails(m) ==> fails_with(
            r,
            ErrorKind::Touchstone,
            m,
        ),
{
    let ghost lv = lines_view(lines@);
    if lines.len() == 0 {
        return Err(error_from(ErrorKind::Touchstone, "no data lines found"));
    }
    assert(lv[0] == line_view(lines@[0]));
    let first_len = match &lines[0] {
        Err(e) => {
            return Err(e.clone());
        },
        Ok(t) => t.len(),
    };
    if first_len < 3 {
        return Err(
            error_from(
                ErrorKind::Touchstone,
                "first data line has too few tokens to infer port count",
            ),
        );
    }
    let n_values = first_len - 1;
    if n_values % 2 != 0 {
        let mut m = String::from_str("odd number of data values (");
        push_decimal(&mut m, n_values);
        m.append(") on first data line");
        return Err(VecfitError::Touchstone(m));
    }
    let n_pairs = n_values / 2;
    let root = isqrt(n_pairs);
    proof {
        crate::shape::lemma_square_root(n_pairs as nat, root as nat);
    }
    if root * root == n_pairs {
        return Ok(root);
    }
    if n_pairs <= 4 {
        let mut total = n_pairs;
        let mut li: usize = 1;
        proof {
            lemma_token_total_step(lv, 0);
            assert(lv.take(0) == Seq::<Result<Seq<T>, VecfitError>>::empty());
            lemma_token_total_prefix(lv, 1);
        }
        while li < lines.len()
            invariant
                1 <= li <= lines.len(),
                lv == lines_view(lines@),
                lv.len() > 0,
                lv[0] matches Ok(t) && t.len() == first_len,
                first_len >= 3,
                (first_len - 1) % 2 == 0,
                n_pairs == (first_len - 1) / 2,
                lv.len() == lines.len(),
                total <= token_total(lv.take(li as int)),
                token_total(lv) <= usize::MAX,
                n_pairs <= 4,
                !is_square(n_pairs as nat),
                extra_pairs(lv, 1, n_pairs as nat) == extra_pairs(lv, li as int, total as nat),
            ensures
                extra_pairs(lv, 1, n_pairs as nat) is NotFound,
            decreases lines.len() - li,
        {
            assert(lv[li as int] == line_view(lines@[li as int]));
            proof {
                lemma_token_total_step(lv, li as int);
                lemma_token_total_prefix(lv, li + 1);
            }
            let count = match &lines[li] {
                Err(e) => {
                    return Err(e.clone());
                },
                Ok(t) => t.len(),
            };
            if count == 0 {
                li = li + 1;
                continue;
            }
            if count % 2 != 0 {
                break;
            }
            total = total + count / 2;
            li = li + 1;
            let s = isqrt(total);
            proof {
                crate::shape::lemma_square_root(total as nat, s as nat);
            }
            if s * s == total && s >= 2 {
                return Ok(s);
            }
        }
    }
    let mut m = String::from_str("cannot infer port count: ");
    push_decimal(&mut m, n_pairs);
    m.append(" parameter pairs on first line is not a perfect square");
    Err(VecfitError::Touchstone(m))
}

/// One frequency point: its frequency token and its value tokens.
#[derive(Debug)]
pub struct RawPoint<T> {
    pub frequency: T,
    pub values: Vec<T>,
}

/// Why data lines could not be grouped into frequency points.
#[derive(Debug)]
pub enum DataLineError<T> {
    /// A token error met reading a line.
    Token(VecfitError),
    /// There are no data lines.
    NoData,
    /// A frequency point does not have the expected number of values.
    Count { frequency: T, expected: usize, found: usize },
}

/// Grouping state: the point being filled (frequency and values so far).
pub ghost enum GroupOutcome<T> {
    Points(Seq<(T, Seq<T>)>),
    Token(VecfitError),
    Count(T, nat, nat),
}

/// Reads lines into frequency points: a line starts a point with its first token
/// as the frequency; following lines continue it until it has `needed` values.
pub open spec fn group_scan<T>(
    lines: Seq<Result<Seq<T>, VecfitError>>,
    i: int,
    needed: nat,
    cur: Option<(T, Seq<T>)>,
    acc: Seq<(T, Seq<T>)>,
) -> GroupOutcome<T>
    decreases lines.len() - i, if cur is Some {
        1int
    } else {
        0int
    },
{
    match cur {
        Some((f, vals)) => if vals.len() < needed && 0 <= i < lines.len() {
            match lines[i] {
                Err(e) => GroupOutcome::Token(e),
                Ok(t) => group_scan(lines, i + 1, needed, Some((f, vals + t)), acc),
            }
        } else if vals.len() != needed {
            GroupOutcome::Count(f, needed, vals.len())
        } else {
            group_scan(lines, i, needed, None, acc.push((f, vals)))
        },
        None => if i < 0 || i >= lines.len() {
            GroupOutcome::Points(acc)
        } else {
            match lines[i] {
                Err(e) => GroupOutcome::Token(e),
                Ok(t) => if t.len() == 0 {
                    group_scan(lines, i + 1, needed, None, acc)
                } else {
                    group_scan(lines, i + 1, needed, Some((t[0], t.drop_first())), acc)
                },
            }
        },
    }
}

pub open spec fn point_view<T>(p: RawPoint<T>) -> (T, Seq<T>) {
    (p.frequency, p.values@)
}

/// Groups data lines, each given as its numeric tokens or the error met reading
/// them, into frequency points of `n_params` value pairs.
pub fn group_data_lines<T: Copy>(lines: &Vec<Result<Vec<T>, VecfitError>>, n_params: usize) -> (r:
    Result<Vec<RawPoint<T>>, DataLineError<T>>)
    requires
        n_params * 2 <= usize::MAX,
    ensures
        lines.len() == 0 ==> r matches Err(DataLineError::NoData),
        lines.len() > 0 ==> match group_scan(
            lines_view(lines@),
            0,
            (n_params * 2) as nat,
            None,
            seq![],
        ) {
            GroupOutcome::Points(ps) => r is Ok && r->Ok_0@.map_values(|p: RawPoint<T>| point_view(p))
                == ps,
            GroupOutcome::Token(e) => r matches Err(DataLineError::Token(e2)) && e2 == e,
            GroupOutcome::Count(f, n, m) => r matches Err(DataLineError::Count { frequency, expected, found })
                && frequency == f && expected == n && found == m,
        },
{
    if lines.len() == 0 {
        return Err(DataLineError::NoData);
    }
    let needed = n_params * 2;
    let ghost lv = lines_view(lines@);
    let mut points: Vec<RawPoint<T>> = Vec::new();
    let mut cur: Option<RawPoint<T>> = None;
    let mut i: usize = 0;
    let ghost target = group_scan(lv, 0, needed as nat, None, seq![]);
    assert(points@.map_values(|p: RawPoint<T>| point_view(p)) =~= Seq::<(T, Seq<T>)>::empty());
    while i < lines.len() || cur.is_some()
        invariant
            i <= lines.len(),
            lines.len() > 0,
            lv == lines_view(lines@),
            lv.len() == lines.len(),
            target == group_scan(lv, 0, (n_params * 2) as nat, None, seq![]),
            needed == n_params * 2,
            target == group_scan(
                lv,
                i as int,
                needed as nat,
                match cur {
                    Some(p) => Some(point_view(p)),
                    None => None,
                },
                points@.map_values(|p: RawPoint<T>| point_view(p)),
            ),
        decreases lines.len() - i, if cur is Some {
            1int
        } else {
            0int
        },
    {
        let ghost acc = points@.map_values(|p: RawPoint<T>| point_view(p));
        match cur {
            Some(p) => {
                if p.values.len() < needed && i < lines.len() {
                    assert(lv[i as int] == line_view(lines@[i as int]));
                    match &lines[i] {
                        Err(e) => {
                            return Err(DataLineError::Token(e.clone()));
                        },
                        Ok(t) => {
                            let mut vals = p.values;
                            let ghost before = vals@;
                            let mut k: usize = 0;
                            while k < t.len()
                                invariant
                                    k <= t.len(),
                                    vals@ == before + t@.take(k as int),
                                decreases t.len() - k,
                            {
                                vals.push(t[k]);
                                assert(t@.take(k + 1) == t@.take(k as int).push(t@[k as int]));
                                k = k + 1;
                            }
                            assert(t@.take(t.len() as int) == t@);
                            cur = Some(RawPoint { frequency: p.frequency, values: vals });
                            i = i + 1;
                        },
                    }
                } else if p.values.len() != needed {
                    return Err(
                        DataLineError::Count {
                            frequency: p.frequency,
                            expected: needed,
                            found: p.values.len(),
                        },
                    );
                } else {
                    let ghost pv = point_view(p);
                    points.push(p);
                    assert(points@.map_values(|p: RawPoint<T>| point_view(p)) == acc.push(pv));
                    cur = None;
                }
            },
            None => {
                assert(lv[i as int] == line_view(lines@[i as int]));
                match &lines[i] {
                    Err(e) => {
                        return Err(DataLineError::Token(e.clone()));
                    },
                    Ok(t) => {
                        if t.len() == 0 {
                            i = i + 1;
                        } else {
                            let mut vals: Vec<T> = Vec::new();
                            let mut k: usize = 1;
                            while k < t.len()
                                invariant
                                    1 <= k <= t.len(),
                                    vals@ == t@.subrange(1, k as int),
                                decreases t.len() - k,
                            {
                                vals.push(t[k]);
                                assert(t@.subrange(1, k + 1) == t@.subrange(1, k as int).push(
                                    t@[k as int],
                                ));
                                k = k + 1;
                            }
                            assert(t@.subrange(1, t.len() as int) == t@.drop_first());
                            cur = Some(RawPoint { frequency: t[0], values: vals });
                            i = i + 1;
                        }
                    },
                }
            },
        }
    }
    Ok(points)
}

/// Every frequency point read from data lines carries exactly `needed` values.
pub proof fn law_points_complete<T>(lines: Seq<Result<Seq<T>, VecfitError>>, needed: nat)
    ensures
        group_scan(lines, 0, needed, None, seq![]) matches GroupOutcome::Points(ps) ==> forall|k: int|
            0 <= k < ps.len() ==> (#[trigger] ps[k]).1.len() == needed,
{
    lemma_points_complete(lines, 0, needed, None, seq![]);
}

proof fn lemma_points_complete<T>(
    lines: Seq<Result<Seq<T>, VecfitError>>,
    i: int,
    needed: nat,
    cur: Option<(T, Seq<T>)>,
    acc: Seq<(T, Seq<T>)>,
)
    requires
        forall|k: int| 0 <= k < acc.len() ==> (#[trigger] acc[k]).1.len() == needed,
    ensures
        group_scan(lines, i, needed, cur, acc) matches GroupOutcome::Points(ps) ==> forall|k: int|
            0 <= k < ps.len() ==> (#[trigger] ps[k]).1.len() == needed,
    decreases lines.len() - i, if cur is Some {
        1int
    } else {
        0int
    },
{
    match cur {
        Some((f, vals)) => {
            if vals.len() < needed && 0 <= i < lines.len() {
                match lines[i] {
                    Err(e) => {},
                    Ok(t) => {
                        lemma_points_complete(lines, i + 1, needed, Some((f, vals + t)), acc);
                    },
                }
            } else if vals.len() != needed {
            } else {
                let acc2 = acc.push((f, vals));
                assert forall|k: int| 0 <= k < acc2.len() implies (#[trigger] acc2[k]).1.len()
                    == needed by {
                    if k < acc.len() {
                        assert(acc2[k] == acc[k]);
                    }
                }
                lemma_points_complete(lines, i, needed, None, acc2);
            }
        },
        None => {
            if i < 0 || i >= lines.len() {
            } else {
                match lines[i] {
                    Err(e) => {},
                    Ok(t) => {
                        if t.len() == 0 {
                            lemma_points_complete(lines, i + 1, needed, None, acc);
                        } else {
                            lemma_points_complete(
                                lines,
                                i + 1,
                                needed,
                                Some((t[0], t.drop_first())),
                                acc,
                            );
                        }
                    },
                }
            }
        },
    }
}

/// The output shape of a Touchstone file: a scalar for one port, a square matrix
/// of parameters otherwise.
pub fn touchstone_shape(ports: usize) -> (r: Result<Shape, VecfitError>)
    ensures
        ports == 1 ==> r is Ok && r->Ok_0@ == Seq::<usize>::empty(),
        ports > 1 ==> r is Ok && r->Ok_0@ == seq![ports, ports],
        ports == 0 ==> fails_with(r, ErrorKind::Shape, crate::shape::shape_positive_msg()),
{
    if ports == 1 {
        Ok(Shape::scalar())
    } else {
        Shape::matrix(ports, ports)
    }
}

/// Checks an explicitly given port count.
pub fn check_ports(ports: usize) -> (r: Result<(), VecfitError>)
    ensures
        r is Ok <==> ports > 0,
        ports == 0 ==> fails_with(r, ErrorKind::Touchstone, "port count must be at least 1"@),
{
    if ports == 0 {
        return Err(error_from(ErrorKind::Touchstone, "port count must be at least 1"));
    }
    Ok(())
}

/// The port count a `.sNp` extension names (`N >= 1`), compared without ASCII case.
pub open spec fn ports_of_extension(ext: Seq<char>) -> Option<usize> {
    let e = lower_all(ext);
    if e.len() >= 3 && e[0] == 's' && e.last() == 'p' {
        match parse_usize(e.subrange(1, e.len() - 1)) {
            Some(n) => if n >= 1 {
                Some(n)
            } else {
                None
            },
            None => None,
        }
    } else {
        None
    }
}

/// Infers the port count from a file extension such as `s2p`; no extension
/// reads as the empty one.
pub fn infer_ports_from_extension(extension: Option<&str>) -> (r: Result<usize, VecfitError>)
    ensures
        ({
            let ext = match extension {
                Some(e) => e@,
                None => Seq::<char>::empty(),
            };
            &&& ports_of_extension(ext) matches Some(n) ==> r == Ok::<usize, VecfitError>(n)
            &&& ports_of_extension(ext) is None ==> fails_with(
                r,
                ErrorKind::Touchstone,
                "cannot infer port count from extension '."@ + lower_all(ext)
                    + "'; expected .sNp"@,
            )
        }),
{
    let cs = match extension {
        Some(e) => chars_of(e),
        None => Vec::new(),
    };
    let lower = lower_range(&cs, 0, cs.len());
    assert(cs@.subrange(0, cs@.len() as int) == cs@);
    let n = lower.len();
    if n >= 3 && lower[0] == 's' && lower[n - 1] == 'p' {
        let middle = string_of(&lower, 1, n - 1);
        match parse_usize_text(middle.as_str()) {
            Some(ports) => {
                if ports >= 1 {
                    return Ok(ports);
                }
            },
            None => {},
        }
    }
    let mut m = String::from_str("cannot infer port count from extension '.");
    let ext = string_of(&lower, 0, n);
    assert(lower@.subrange(0, n as int) == lower@);
    m.append(ext.as_str());
    m.append("'; expected .sNp");
    Err(VecfitError::Touchstone(m))
}

/// A first data line holding a frequency and the `n * n` value pairs of an
/// `n`-port point names `n` ports.
pub proof fn law_square_line_gives_ports<T>(lines: Seq<Result<Seq<T>, VecfitError>>, n: nat)
    requires
        n >= 1,
        lines.len() > 0,
        lines[0] matches Ok(t) && t.len() == 1 + 2 * (n * n),
    ensures
        infer_ports_spec(lines) == PortsOutcome::Ports(n),
{
    assert(n * n >= 1) by (nonlinear_arith)
        requires
            n >= 1,
    ;
    assert(n * n < (n + 1) * (n + 1)) by (nonlinear_arith);
    crate::shape::lemma_square_root(n * n, n);
}

/// The points of lines that each hold one whole point: every line's first token
/// with the rest of its tokens.
pub open spec fn one_line_points<T>(lines: Seq<Result<Seq<T>, VecfitError>>) -> Seq<(T, Seq<T>)> {
    Seq::new(lines.len(), |k: int| (lines[k]->Ok_0[0], lines[k]->Ok_0.drop_first()))
}

proof fn lemma_one_line_points<T>(
    lines: Seq<Result<Seq<T>, VecfitError>>,
    needed: nat,
    i: int,
    acc: Seq<(T, Seq<T>)>,
)
    requires
        0 <= i <= lines.len(),
        forall|k: int| 0 <= k < lines.len() ==> ((#[trigger] lines[k]) matches Ok(t) && t.len() == needed + 1),
    ensures
        group_scan(lines, i, needed, None, acc) == GroupOutcome::Points(
            acc + one_line_points(lines).skip(i),
        ),
    decreases lines.len() - i,
{
    if i == lines.len() {
        assert(one_line_points(lines).skip(i) =~= Seq::<(T, Seq<T>)>::empty());
        assert(acc + one_line_points(lines).skip(i) =~= acc);
    } else {
        let t = lines[i]->Ok_0;
        assert(lines[i] matches Ok(u) && u.len() == needed + 1);
        let p = (t[0], t.drop_first());
        lemma_one_line_points(lines, needed, i + 1, acc.push(p));
        assert(group_scan(lines, i + 1, needed, Some(p), acc) == group_scan(
            lines,
            i + 1,
            needed,
            None,
            acc.push(p),
        ));
        assert(one_line_points(lines)[i] == p);
        assert(acc.push(p) + one_line_points(lines).skip(i + 1) =~= acc + one_line_points(lines).skip(
            i,
        ));
    }
}

/// Data lines that each hold a frequency and all `needed` values of one point are
/// read back point by point: each line's first token and the rest of its tokens.
pub proof fn law_one_line_points<T>(lines: Seq<Result<Seq<T>, VecfitError>>, needed: nat)
    requires
        forall|k: int| 0 <= k < lines.len() ==> ((#[trigger] lines[k]) matches Ok(t) && t.len() == needed + 1),
    ensures
        group_scan(lines, 0, needed, None, seq![]) == GroupOutcome::Points(one_line_points(lines)),
{
    lemma_one_line_points(lines, needed, 0, seq![]);
    assert(Seq::<(T, Seq<T>)>::empty() + one_line_points(lines).skip(0) =~= one_line_points(lines));
}

} // verus!

verus! {

/// The extension `s<n>p` of an `n`-port file, in any ASCII case, gives `n` ports
/// for every `n >= 1`.
pub proof fn law_extension_names_ports(ext: Seq<char>, n: usize)
    requires
        n >= 1,
        lower_all(ext) == "s"@ + decimal(n as nat) + "p"@,
    ensures
        ports_of_extension(ext) == Some(n),
{
    reveal_strlit("s");
    reveal_strlit("p");
    let e = lower_all(ext);
    let d = decimal(n as nat);
    law_parse_decimal(n);
    assert("s"@ =~= seq!['s']);
    assert("p"@ =~= seq!['p']);
    assert(d.len() > 0) by {
        reveal_with_fuel(decimal, 2);
    }
    assert(e.len() == d.len() + 2);
    assert(e[0] == 's');
    assert(e.last() == 'p');
    assert(e.subrange(1, e.len() - 1) =~= d);
}

} // verus!

verus! {

/// The factor an SI prefix stands for: none, kilo, mega or giga.
pub open spec fn metric_prefix_value(p: Seq<char>) -> Option<nat> {
    if p.len() == 0 {
        Some(1)
    } else if p == seq!['K'] {
        Some(1_000)
    } else if p == seq!['M'] {
        Some(1_000_000)
    } else if p == seq!['G'] {
        Some(1_000_000_000)
    } else {
        None
    }
}

/// A frequency-unit token is an SI prefix followed by `Hz`, in any ASCII case, and
/// the unit it names is worth as many hertz as the prefix says: `Hz` one, `kHz` a
/// thousand, `MHz` a million, `GHz` a billion. Every such token names a unit.
pub proof fn law_unit_token_scale(t: Seq<char>)
    ensures
        ({
            let u = upper_all(t);
            let l = u.len() as int;
            &&& frequency_unit_of(t) matches Some(unit) ==> (l >= 2 && u.subrange(l - 2, l)
                == seq!['H', 'Z'] && metric_prefix_value(u.subrange(0, l - 2)) == Some(
                hz_per_unit(unit),
            ))
            &&& (l >= 2 && u.subrange(l - 2, l) == seq!['H', 'Z'] && metric_prefix_value(
                u.subrange(0, l - 2),
            ) is Some) ==> frequency_unit_of(t) is Some
        }),
{
    reveal_strlit("HZ");
    reveal_strlit("KHZ");
    reveal_strlit("MHZ");
    reveal_strlit("GHZ");
    assert("HZ"@ =~= seq!['H', 'Z']);
    assert("KHZ"@ =~= seq!['K', 'H', 'Z']);
    assert("MHZ"@ =~= seq!['M', 'H', 'Z']);
    assert("GHZ"@ =~= seq!['G', 'H', 'Z']);
    let u = upper_all(t);
    let l = u.len() as int;
    if l >= 2 {
        let p = u.subrange(0, l - 2);
        let h = u.subrange(l - 2, l);
        assert(u =~= p + h);
        if h == seq!['H', 'Z'] {
            if p.len() == 0 {
                assert(u =~= seq!['H', 'Z']);
            } else if p == seq!['K'] {
                assert(u =~= seq!['K', 'H', 'Z']);
            } else if p == seq!['M'] {
                assert(u =~= seq!['M', 'H', 'Z']);
            } else if p == seq!['G'] {
                assert(u =~= seq!['G', 'H', 'Z']);
            }
        }
    }
    if u == "HZ"@ {
        assert(u.subrange(0, 0) =~= Seq::<char>::empty());
        assert(u.subrange(0, 2) =~= seq!['H', 'Z']);
    } else if u == "KHZ"@ {
        assert(u.subrange(0, 1) =~= seq!['K']);
        assert(u.subrange(1, 3) =~= seq!['H', 'Z']);
    } else if u == "MHZ"@ {
        assert(u.subrange(0, 1) =~= seq!['M']);
        assert(u.subrange(1, 3) =~= seq!['H', 'Z']);
    } else if u == "GHZ"@ {
        assert(u.subrange(0, 1) =~= seq!['G']);
        assert(u.subrange(1, 3) =~= seq!['H', 'Z']);
    }
}

} // verus!

verus! {

/// The values of a point written over the lines `b[0..j]`: the first line's tokens
/// after its frequency, then every continuation line's tokens, in order.
pub open spec fn point_values<T>(b: Seq<Seq<T>>, j: int) -> Seq<T> {
    b[0].drop_first() + flatten(b.subrange(1, j))
}

/// The lines `b` write one point of `needed` values: a first line holding the
/// frequency, then continuation lines, the point falling short of `needed` values
/// before its last line and having exactly `needed` after it.
pub open spec fn is_point_block<T>(b: Seq<Seq<T>>, needed: nat) -> bool {
    &&& b.len() >= 1
    &&& b[0].len() >= 1
    &&& forall|j: int| 1 <= j < b.len() ==> (#[trigger] point_values(b, j)).len() < needed
    &&& point_values(b, b.len() as int).len() == needed
}

/// The point such lines write: the first token of the first line, and the values.
pub open spec fn block_point<T>(b: Seq<Seq<T>>) -> (T, Seq<T>) {
    (b[0][0], point_values(b, b.len() as int))
}

/// The lines of several points, one after the other.
pub open spec fn join_blocks<T>(bs: Seq<Seq<Seq<T>>>) -> Seq<Seq<T>>
    decreases bs.len(),
{
    if bs.len() == 0 {
        seq![]
    } else {
        bs[0] + join_blocks(bs.drop_first())
    }
}

/// Lines read without a token error.
pub open spec fn ok_lines<T>(ls: Seq<Seq<T>>) -> Seq<Result<Seq<T>, VecfitError>> {
    ls.map_values(|t: Seq<T>| Ok::<Seq<T>, VecfitError>(t))
}

proof fn lemma_scan_shift<T>(
    lines: Seq<Result<Seq<T>, VecfitError>>,
    i: int,
    needed: nat,
    cur: Option<(T, Seq<T>)>,
    acc: Seq<(T, Seq<T>)>,
    d: int,
)
    requires
        0 <= d <= i,
        d <= lines.len(),
    ensures
        group_scan(lines, i, needed, cur, acc) == group_scan(lines.skip(d), i - d, needed, cur, acc),
    decreases lines.len() - i, if cur is Some {
        1int
    } else {
        0int
    },
{
    let sh = lines.skip(d);
    if 0 <= i < lines.len() {
        assert(sh[i - d] == lines[i]);
    }
    match cur {
        Some((f, vals)) => {
            if vals.len() < needed && 0 <= i < lines.len() {
                match lines[i] {
                    Err(e) => {},
                    Ok(t) => {
                        lemma_scan_shift(lines, i + 1, needed, Some((f, vals + t)), acc, d);
                    },
                }
            } else if vals.len() != needed {
            } else {
                lemma_scan_shift(lines, i, needed, None, acc.push((f, vals)), d);
            }
        },
        None => {
            if i >= lines.len() {
            } else {
                match lines[i] {
                    Err(e) => {},
                    Ok(t) => {
                        if t.len() == 0 {
                            lemma_scan_shift(lines, i + 1, needed, None, acc, d);
                        } else {
                            lemma_scan_shift(lines, i + 1, needed, Some((t[0], t.drop_first())), acc, d);
                        }
                    },
                }
            }
        },
    }
}

proof fn lemma_block_tail<T>(
    lines: Seq<Result<Seq<T>, VecfitError>>,
    b: Seq<Seq<T>>,
    needed: nat,
    j: int,
    acc: Seq<(T, Seq<T>)>,
)
    requires
        is_point_block(b, needed),
        1 <= j <= b.len(),
        b.len() <= lines.len(),
        forall|k: int| 0 <= k < b.len() ==> #[trigger] lines[k] == Ok::<Seq<T>, VecfitError>(b[k]),
    ensures
        group_scan(lines, j, needed, Some((b[0][0], point_values(b, j))), acc) == group_scan(
            lines,
            b.len() as int,
            needed,
            None,
            acc.push(block_point(b)),
        ),
    decreases b.len() - j,
{
    if j < b.len() {
        assert(point_values(b, j).len() < needed);
        assert(lines[j] == Ok::<Seq<T>, VecfitError>(b[j]));
        assert(b.subrange(1, j + 1).drop_last() =~= b.subrange(1, j));
        assert(point_values(b, j) + b[j] =~= point_values(b, j + 1));
        lemma_block_tail(lines, b, needed, j + 1, acc);
    }
}

proof fn lemma_blocks<T>(bs: Seq<Seq<Seq<T>>>, needed: nat, acc: Seq<(T, Seq<T>)>)
    requires
        forall|k: int| 0 <= k < bs.len() ==> is_point_block(#[trigger] bs[k], needed),
    ensures
        group_scan(ok_lines(join_blocks(bs)), 0, needed, None, acc) == GroupOutcome::Points(
            acc + bs.map_values(|b: Seq<Seq<T>>| block_point(b)),
        ),
    decreases bs.len(),
{
    let pts = bs.map_values(|b: Seq<Seq<T>>| block_point(b));
    if bs.len() == 0 {
        assert(ok_lines(join_blocks(bs)) =~= Seq::<Result<Seq<T>, VecfitError>>::empty());
        assert(acc + pts =~= acc);
    } else {
        let b = bs[0];
        let rest = bs.drop_first();
        assert(is_point_block(bs[0], needed));
        let lines = ok_lines(join_blocks(bs));
        assert(join_blocks(bs) == b + join_blocks(rest));
        assert(lines.len() == b.len() + join_blocks(rest).len());
        assert forall|k: int| 0 <= k < b.len() implies #[trigger] lines[k] == Ok::<Seq<T>, VecfitError>(b[k]) by {
            assert((b + join_blocks(rest))[k] == b[k]);
        }
        assert(lines[0] == Ok::<Seq<T>, VecfitError>(b[0]));
        assert(b.subrange(1, 1) =~= Seq::<Seq<T>>::empty());
        assert(point_values(b, 1) =~= b[0].drop_first());
        lemma_block_tail(lines, b, needed, 1, acc);
        lemma_scan_shift(lines, b.len() as int, needed, None, acc.push(block_point(b)), b.len() as int);
        assert(lines.skip(b.len() as int) =~= ok_lines(join_blocks(rest)));
        assert forall|k: int| 0 <= k < rest.len() implies is_point_block(#[trigger] rest[k], needed) by {
            assert(rest[k] == bs[k + 1]);
        }
        lemma_blocks(rest, needed, acc.push(block_point(b)));
        assert(acc.push(block_point(b)) + rest.map_values(|b: Seq<Seq<T>>| block_point(b)) =~= acc + pts);
    }
}

/// Data lines that write whole points, each a line holding the frequency followed
/// by continuation lines that complete its `needed` values, are read back point by
/// point: each point's frequency is the first token of the line that starts it, and
/// its values are the rest of that line followed by the continuation lines' tokens,
/// in order.
pub proof fn law_points_from_lines<T>(bs: Seq<Seq<Seq<T>>>, needed: nat)
    requires
        forall|k: int| 0 <= k < bs.len() ==> is_point_block(#[trigger] bs[k], needed),
    ensures
        group_scan(ok_lines(join_blocks(bs)), 0, needed, None, seq![]) == GroupOutcome::Points(
            bs.map_values(|b: Seq<Seq<T>>| block_point(b)),
        ),
{
    lemma_blocks(bs, needed, seq![]);
    assert(Seq::<(T, Seq<T>)>::empty() + bs.map_values(|b: Seq<Seq<T>>| block_point(b))
        =~= bs.map_values(|b: Seq<Seq<T>>| block_point(b)));
}

} // verus!

