//! Package records and the verified parser for the line-oriented
//! `desc` metadata format.
//!
//! A record file is a sequence of sections separated by blank lines; each
//! section starts with a `%NAME%`-style header line followed by one or more
//! body lines.  The parser is specified as a fold of `apply_section_spec`
//! over the sections of the input.

use vstd::prelude::*;

use crate::strutil::{
    find_first, lemma_first_occurrence_from, lemma_split_seq_len, split_seq, split_term_seq,
    split_terminator_str, str_eq,
};

verus! {

/// Why a package is present on the system.
#[derive(Clone, Copy, Debug, Default, PartialEq, Eq, Structural)]
pub enum Reason {
    /// The user asked for the package directly.
    #[default]
    Explicit,
    /// The package was pulled in as a dependency of another one.
    Dependency,
}

/// An optional dependency: a package name, possibly followed by a
/// human-readable reason.
#[derive(Debug)]
pub struct OptionalDependency {
    pub name: String,
    pub description: Option<String>,
}

/// Metadata of one installed package.
#[derive(Debug)]
pub struct PackageDesc {
    pub name: String,
    pub version: String,
    pub description: String,
    pub url: String,
    pub reason: Reason,
    pub size: Option<u64>,
    pub dependencies: Vec<String>,
    pub optional_dependencies: Vec<OptionalDependency>,
}

/// Mathematical model of an optional dependency.
#[verifier::ext_equal]
pub ghost struct OptDepModel {
    pub name: Seq<char>,
    pub description: Option<Seq<char>>,
}

/// Mathematical model of a package record.
#[verifier::ext_equal]
pub ghost struct PackageModel {
    pub name: Seq<char>,
    pub version: Seq<char>,
    pub description: Seq<char>,
    pub url: Seq<char>,
    pub reason: Reason,
    pub size: Option<u64>,
    pub dependencies: Seq<Seq<char>>,
    pub optional_dependencies: Seq<OptDepModel>,
}

impl View for OptionalDependency {
    type V = OptDepModel;

    open spec fn view(&self) -> OptDepModel {
        OptDepModel {
            name: self.name@,
            description: match self.description {
                Option::Some(d) => Option::Some(d@),
                Option::None => Option::None,
            },
        }
    }
}

impl View for PackageDesc {
    type V = PackageModel;

    open spec fn view(&self) -> PackageModel {
        PackageModel {
            name: self.name@,
            version: self.version@,
            description: self.description@,
            url: self.url@,
            reason: self.reason,
            size: self.size,
            dependencies: self.dependencies.deep_view(),
            optional_dependencies: self.optional_dependencies@.map_values(
                |od: OptionalDependency| od@,
            ),
        }
    }
}

/// The record a parse starts from: everything empty, reason `Explicit`,
/// no size.
pub open spec fn empty_model() -> PackageModel {
    PackageModel {
        name: Seq::<char>::empty(),
        version: Seq::<char>::empty(),
        description: Seq::<char>::empty(),
        url: Seq::<char>::empty(),
        reason: Reason::Explicit,
        size: Option::None,
        dependencies: Seq::<Seq<char>>::empty(),
        optional_dependencies: Seq::<OptDepModel>::empty(),
    }
}

impl Default for PackageDesc {
    /// An empty record, the starting point of a parse.
    fn default() -> (r: Self)
        ensures
            r@ == empty_model(),
    {
        let r = PackageDesc {
            name: String::new(),
            version: String::new(),
            description: String::new(),
            url: String::new(),
            reason: Reason::Explicit,
            size: None,
            dependencies: Vec::new(),
            optional_dependencies: Vec::new(),
        };
        proof {
            assert(r@ =~~= empty_model());
        }
        r
    }
}

/// Everything that can go wrong while parsing one record.
#[derive(Clone, Copy, Debug, PartialEq, Eq, Structural)]
pub enum ParseError {
    /// A section had no header line.
    SectionWithoutName,
    /// A section had a header but no body line.
    SectionWithoutContent,
    /// A `%REASON%` body other than `1`.
    UnexpectedReason,
    /// A `%SIZE%` body that is not a decimal byte count fitting in 64 bits.
    InvalidSize,
    /// No non-empty `%NAME%` section was present.
    MissingName,
    /// No non-empty `%VERSION%` section was present.
    MissingVersion,
    /// No non-empty `%DESC%` section was present.
    MissingDescription,
    /// No non-empty `%URL%` section was present.
    MissingUrl,
}

/// An optional-dependency line parsed as its model: the part before the
/// first `": "` is the name, the part between the first and second `": "`
/// (or the end) is the reason, if any.
pub open spec fn parse_optdep_spec(line: Seq<char>) -> OptDepModel {
    let pieces = split_seq(line, seq![':', ' ']);
    OptDepModel {
        name: pieces[0],
        description: if pieces.len() >= 2 {
            Option::Some(pieces[1])
        } else {
            Option::None
        },
    }
}

/// Whether `c` is a decimal digit.
pub open spec fn is_dec_digit(c: char) -> bool {
    48 <= (c as u32) && (c as u32) <= 57
}

/// The value of a digit string read in base ten.
pub open spec fn dec_value(s: Seq<char>) -> int
    decreases s.len(),
{
    if s.len() == 0 {
        0
    } else {
        dec_value(s.drop_last()) * 10 + (s.last() as u32 - 48)
    }
}

/// The digit part of a decimal literal: a single leading `+` is allowed.
pub open spec fn dec_digits_of(s: Seq<char>) -> Seq<char> {
    if s.len() > 0 && s[0] == '+' {
        s.drop_first()
    } else {
        s
    }
}

/// Whether `s` is a non-empty digit string whose value fits in a `u64`.
pub open spec fn valid_u64_digits(s: Seq<char>) -> bool {
    &&& s.len() >= 1
    &&& forall|k: int| 0 <= k < s.len() ==> is_dec_digit(#[trigger] s[k])
    &&& dec_value(s) <= u64::MAX as int
}

/// What parsing `s` as a `u64` yields, mirroring the standard decimal
/// grammar for unsigned integers.
pub open spec fn parse_u64_spec(s: Seq<char>) -> Option<u64> {
    let digits = dec_digits_of(s);
    if valid_u64_digits(digits) {
        Option::Some(dec_value(digits) as u64)
    } else {
        Option::None
    }
}

proof fn lemma_dec_value_nonneg(s: Seq<char>)
    requires
        forall|k: int| 0 <= k < s.len() ==> is_dec_digit(#[trigger] s[k]),
    ensures
        dec_value(s) >= 0,
    decreases s.len(),
{
    if s.len() > 0 {
        lemma_dec_value_nonneg(s.drop_last());
    }
}

proof fn lemma_dec_value_mono(s: Seq<char>, j: int)
    requires
        0 <= j <= s.len(),
        forall|k: int| 0 <= k < s.len() ==> is_dec_digit(#[trigger] s[k]),
    ensures
        dec_value(s.take(j)) <= dec_value(s),
    decreases s.len(),
{
    if j == s.len() {
        assert(s.take(j) =~= s);
    } else {
        let t = s.drop_last();
        assert(forall|k: int| 0 <= k < t.len() ==> is_dec_digit(#[trigger] t[k]));
        lemma_dec_value_nonneg(t);
        lemma_dec_value_mono(t, j);
        assert(t.take(j) =~= s.take(j));
    }
}

/// Parses a decimal `u64`, as `parse_u64_spec` names the result.
fn parse_u64_str(s: &str) -> (r: Option<u64>)
    ensures
        r == parse_u64_spec(s@),
{
    let len = s.unicode_len();
    let has_plus = len > 0 && s.get_char(0) == '+';
    let start: usize = if has_plus {
        1
    } else {
        0
    };
    let ghost digits = dec_digits_of(s@);
    proof {
        assert(digits =~= s@.skip(start as int));
    }
    if start >= len {
        return None;
    }
    let mut val: u64 = 0;
    let mut i: usize = start;
    while i < len
        invariant
            len == s@.len(),
            start <= i <= len,
            start < len,
            start <= 1,
            digits == dec_digits_of(s@),
            digits =~= s@.skip(start as int),
            val == dec_value(digits.take(i - start)),
            forall|k: int| 0 <= k < i - start ==> is_dec_digit(#[trigger] digits[k]),
        decreases len - i,
    {
        let c = s.get_char(i);
        let u: u32 = c as u32;
        if u < 48 || u > 57 {
            proof {
                assert(digits[i - start] == s@[i as int]);
                assert(!is_dec_digit(digits[i - start]));
            }
            return None;
        }
        let d: u64 = (u - 48) as u64;
        proof {
            assert(digits.take(i - start + 1).drop_last() =~= digits.take(i - start));
            assert(digits.take(i - start + 1).last() == digits[i - start]);
            assert(digits[i - start] == s@[i as int]);
        }
        if val > (u64::MAX - d) / 10 {
            proof {
                assert(val * 10 + d > u64::MAX) by {
                    assert(val >= (u64::MAX - d) / 10 + 1);
                    assert(((u64::MAX - d) / 10 + 1) * 10 > u64::MAX - d);
                    assert(val * 10 >= ((u64::MAX - d) / 10 + 1) * 10) by (nonlinear_arith)
                        requires
                            val >= (u64::MAX - d) / 10 + 1,
                    ;
                }
                assert(dec_value(digits.take(i - start + 1)) > u64::MAX);
                if forall|k: int| 0 <= k < digits.len() ==> is_dec_digit(#[trigger] digits[k]) {
                    lemma_dec_value_mono(digits, i - start + 1);
                    assert(!valid_u64_digits(digits));
                } else {
                    assert(!valid_u64_digits(digits));
                }
            }
            return None;
        }
        proof {
            assert(val * 10 + d <= u64::MAX) by {
                assert(val <= (u64::MAX - d) / 10);
                assert(((u64::MAX - d) / 10) * 10 <= u64::MAX - d);
                assert(val * 10 <= ((u64::MAX - d) / 10) * 10) by (nonlinear_arith)
                    requires
                        val <= (u64::MAX - d) / 10,
                ;
            }
        }
        val = val * 10 + d;
        i = i + 1;
    }
    proof {
        assert(digits.take(len - start) =~= digits);
        assert(valid_u64_digits(digits));
    }
    Some(val)
}

impl OptionalDependency {
    /// Parses one optional-dependency line (without its newline), as
    /// `parse_optdep_spec` names the result.
    pub fn parse(line: &str) -> (r: Self)
        ensures
            r@ == parse_optdep_spec(line@),
    {
        proof {
            reveal_strlit(": ");
            assert(": "@ =~= seq![':', ' ']);
        }
        let len = line.unicode_len();
        match find_first(line, ": ") {
            None => {
                proof {
                    lemma_split_seq_len(line@, seq![':', ' ']);
                }
                OptionalDependency { name: line.to_owned(), description: None }
            },
            Some(i) => {
                proof {
                    lemma_first_occurrence_from(line@, seq![':', ' '], 0);
                }
                let name = line.substring_char(0, i).to_owned();
                let rest = line.substring_char(i + 2, len);
                let ghost rest_view = line@.subrange(i + 2, len as int);
                proof {
                    lemma_split_seq_len(rest_view, seq![':', ' ']);
                }
                let description = match find_first(rest, ": ") {
                    None => rest.to_owned(),
                    Some(j) => {
                        proof {
                            lemma_first_occurrence_from(rest_view, seq![':', ' '], 0);
                        }
                        rest.substring_char(0, j).to_owned()
                    },
                };
                OptionalDependency { name, description: Some(description) }
            },
        }
    }
}

/// The effect of one section on a record being built: headers select the
/// field, the body lines supply its value; an unknown header changes
/// nothing.
pub open spec fn apply_section_spec(m: PackageModel, sec: Seq<char>) -> Result<
    PackageModel,
    ParseError,
> {
    let lines = split_term_seq(sec, seq!['\n']);
    if lines.len() == 0 {
        Result::Err(ParseError::SectionWithoutName)
    } else if lines.len() == 1 {
        Result::Err(ParseError::SectionWithoutContent)
    } else {
        let name = lines[0];
        let first = lines[1];
        let body = lines.skip(1);
        if name == "%NAME%"@ {
            Result::Ok(PackageModel { name: first, ..m })
        } else if name == "%VERSION%"@ {
            Result::Ok(PackageModel { version: first, ..m })
        } else if name == "%DESC%"@ {
            Result::Ok(PackageModel { description: first, ..m })
        } else if name == "%URL%"@ {
            Result::Ok(PackageModel { url: first, ..m })
        } else if name == "%REASON%"@ {
            if first == "1"@ {
                Result::Ok(PackageModel { reason: Reason::Dependency, ..m })
            } else {
                Result::Err(ParseError::UnexpectedReason)
            }
        } else if name == "%SIZE%"@ {
            match parse_u64_spec(first) {
                Option::Some(v) => Result::Ok(PackageModel { size: Option::Some(v), ..m }),
                Option::None => Result::Err(ParseError::InvalidSize),
            }
        } else if name == "%DEPENDS%"@ {
            Result::Ok(PackageModel { dependencies: m.dependencies + body, ..m })
        } else if name == "%OPTDEPENDS%"@ {
            Result::Ok(
                PackageModel {
                    optional_dependencies: m.optional_dependencies + body.map_values(
                        |l: Seq<char>| parse_optdep_spec(l),
                    ),
                    ..m
                },
            )
        } else {
            Result::Ok(m)
        }
    }
}

/// The fold of `apply_section_spec` over the sections of a record file.
pub open spec fn parse_sections(m: PackageModel, sections: Seq<Seq<char>>) -> Result<
    PackageModel,
    ParseError,
>
    decreases sections.len(),
{
    if sections.len() == 0 {
        Result::Ok(m)
    } else {
        match apply_section_spec(m, sections[0]) {
            Result::Err(e) => Result::Err(e),
            Result::Ok(m2) => parse_sections(m2, sections.drop_first()),
        }
    }
}

/// What parsing a whole record file yields: the fold over its sections,
/// then a check that the four required fields are non-empty.
pub open spec fn parse_desc_spec(s: Seq<char>) -> Result<PackageModel, ParseError> {
    match parse_sections(empty_model(), split_term_seq(s, seq!['\n', '\n'])) {
        Result::Err(e) => Result::Err(e),
        Result::Ok(m) => {
            if m.name.len() == 0 {
                Result::Err(ParseError::MissingName)
            } else if m.version.len() == 0 {
                Result::Err(ParseError::MissingVersion)
            } else if m.description.len() == 0 {
                Result::Err(ParseError::MissingDescription)
            } else if m.url.len() == 0 {
                Result::Err(ParseError::MissingUrl)
            } else {
                Result::Ok(m)
            }
        },
    }
}

/// Applies one section to the record being built; on an error the record
/// is left as it was.
fn apply_section(desc: &mut PackageDesc, section: &str) -> (r: Result<(), ParseError>)
    ensures
        match apply_section_spec(old(desc)@, section@) {
            Result::Ok(m) => r is Ok && final(desc)@ == m,
            Result::Err(e) => r == Result::<(), ParseError>::Err(e) && final(desc)@ == old(desc)@,
        },
{
    proof {
        reveal_strlit("\n");
        assert("\n"@ =~= seq!['\n']);
    }
    let lines = split_terminator_str(section, "\n");
    let ghost lv = lines.deep_view();
    if lines.len() == 0 {
        return Err(ParseError::SectionWithoutName);
    }
    if lines.len() == 1 {
        return Err(ParseError::SectionWithoutContent);
    }
    let name = &lines[0];
    if str_eq(name.as_str(), "%NAME%") {
        desc.name = lines[1].clone();
    } else if str_eq(name.as_str(), "%VERSION%") {
        desc.version = lines[1].clone();
    } else if str_eq(name.as_str(), "%DESC%") {
        desc.description = lines[1].clone();
    } else if str_eq(name.as_str(), "%URL%") {
        desc.url = lines[1].clone();
    } else if str_eq(name.as_str(), "%REASON%") {
        if str_eq(lines[1].as_str(), "1") {
            desc.reason = Reason::Dependency;
        } else {
            return Err(ParseError::UnexpectedReason);
        }
    } else if str_eq(name.as_str(), "%SIZE%") {
        match parse_u64_str(lines[1].as_str()) {
            Some(v) => {
                desc.size = Some(v);
            },
            None => {
                return Err(ParseError::InvalidSize);
            },
        }
    } else if str_eq(name.as_str(), "%DEPENDS%") {
        let ghost pre = desc.dependencies.deep_view();
        let mut k: usize = 1;
        while k < lines.len()
            invariant
                1 <= k <= lines.len(),
                lines.deep_view() == lv,
                lv.len() >= 2,
                desc.dependencies.deep_view() == pre + lv.subrange(1, k as int),
                desc.name == old(desc).name,
                desc.version == old(desc).version,
                desc.description == old(desc).description,
                desc.url == old(desc).url,
                desc.reason == old(desc).reason,
                desc.size == old(desc).size,
                desc.optional_dependencies == old(desc).optional_dependencies,
                pre == old(desc).dependencies.deep_view(),
            decreases lines.len() - k,
        {
            let ghost before = desc.dependencies.deep_view();
            desc.dependencies.push(lines[k].clone());
            proof {
                assert(desc.dependencies.deep_view() =~= before.push(lv[k as int]));
                assert(desc.dependencies.deep_view() =~= pre + lv.subrange(1, k + 1));
            }
            k = k + 1;
        }
        proof {
            assert(lv.subrange(1, lv.len() as int) =~= lv.skip(1));
        }
    } else if str_eq(name.as_str(), "%OPTDEPENDS%") {
        let ghost pre = desc.optional_dependencies@.map_values(|od: OptionalDependency| od@);
        let ghost target = lv.skip(1).map_values(|l: Seq<char>| parse_optdep_spec(l));
        let mut k: usize = 1;
        while k < lines.len()
            invariant
                1 <= k <= lines.len(),
                lines.deep_view() == lv,
                lv.len() >= 2,
                desc.optional_dependencies@.map_values(|od: OptionalDependency| od@) == pre
                    + lv.subrange(1, k as int).map_values(|l: Seq<char>| parse_optdep_spec(l)),
                desc.name == old(desc).name,
                desc.version == old(desc).version,
                desc.description == old(desc).description,
                desc.url == old(desc).url,
                desc.reason == old(desc).reason,
                desc.size == old(desc).size,
                desc.dependencies == old(desc).dependencies,
                pre == old(desc).optional_dependencies@.map_values(|od: OptionalDependency| od@),
            decreases lines.len() - k,
        {
            let ghost before = desc.optional_dependencies@.map_values(
                |od: OptionalDependency| od@,
            );
            let od = OptionalDependency::parse(lines[k].as_str());
            desc.optional_dependencies.push(od);
            proof {
                assert(desc.optional_dependencies@.map_values(|od: OptionalDependency| od@)
                    =~= before.push(parse_optdep_spec(lv[k as int])));
                assert(lv.subrange(1, k + 1).map_values(|l: Seq<char>| parse_optdep_spec(l))
                    =~= lv.subrange(1, k as int).map_values(|l: Seq<char>| parse_optdep_spec(l)).push(
                    parse_optdep_spec(lv[k as int]),
                ));
                assert(desc.optional_dependencies@.map_values(|od: OptionalDependency| od@)
                    =~= pre + lv.subrange(1, k + 1).map_values(|l: Seq<char>| parse_optdep_spec(l)));
            }
            k = k + 1;
        }
        proof {
            assert(lv.subrange(1, lv.len() as int) =~= lv.skip(1));
        }
    }
    Ok(())
}

impl PackageDesc {
    /// Parses one record file, as `parse_desc_spec` names the result.
    pub fn parse(s: &str) -> (r: Result<Self, ParseError>)
        ensures
            match r {
                Result::Ok(d) => parse_desc_spec(s@) == Result::<PackageModel, ParseError>::Ok(d@),
                Result::Err(e) => parse_desc_spec(s@) == Result::<PackageModel, ParseError>::Err(
                    e,
                ),
            },
    {
        proof {
            reveal_strlit("\n\n");
            assert("\n\n"@ =~= seq!['\n', '\n']);
        }
        let sections = split_terminator_str(s, "\n\n");
        let ghost secs = sections.deep_view();
        let mut desc = PackageDesc::default();
        let mut k: usize = 0;
        proof {
            assert(secs.skip(0) =~= secs);
        }
        while k < sections.len()
            invariant
                0 <= k <= sections.len(),
                sections.deep_view() == secs,
                secs == split_term_seq(s@, seq!['\n', '\n']),
                parse_sections(empty_model(), secs) == parse_sections(desc@, secs.skip(k as int)),
            decreases sections.len() - k,
        {
            let res = apply_section(&mut desc, sections[k].as_str());
            match res {
                Err(e) => {
                    proof {
                        assert(secs.skip(k as int)[0] == secs[k as int]);
                    }
                    return Err(e);
                },
                Ok(()) => {
                    proof {
                        assert(secs.skip(k as int)[0] == secs[k as int]);
                        assert(secs.skip(k as int).drop_first() =~= secs.skip(k + 1));
                    }
                },
            }
            k = k + 1;
        }
        proof {
            assert(secs.skip(sections.len() as int).len() == 0);
        }
        if desc.name.as_str().is_empty() {
            return Err(ParseError::MissingName);
        }
        if desc.version.as_str().is_empty() {
            return Err(ParseError::MissingVersion);
        }
        if desc.description.as_str().is_empty() {
            return Err(ParseError::MissingDescription);
        }
        if desc.url.as_str().is_empty() {
            return Err(ParseError::MissingUrl);
        }
        Ok(desc)
    }
}

} // verus!
