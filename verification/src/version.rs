//! The version-string model: a value that owns a package's version text
//! exactly as written, exposes separator-normalized views of it, and
//! decomposes it, best-effort, into a structured shape.

use vstd::prelude::*;
use vstd::string::StrSliceExecFns;

use crate::parse_int::parse_u64_in;
use crate::parse_int::spec_parse_u64;
use crate::parse_int::IntParseError;
use crate::separators::remove_separators;
use crate::separators::replace_separators;
use crate::separators::rewrite_separators;
use crate::separators::strip_separators;
use crate::split::dot_split;
use crate::split::find_dot;
use crate::split::lemma_dot_split_len;
use crate::split::lemma_dot_split_step;

verus! {

/// A package version: free-form text, stored verbatim. Any string is
/// accepted; nothing is validated or rewritten at construction.
#[derive(Debug, Clone)]
pub struct Version {
    raw: String,
}

impl View for Version {
    type V = Seq<char>;

    closed spec fn view(&self) -> Seq<char> {
        self.raw@
    }
}

/// Why structured parsing of a version string failed.
#[derive(Debug, Clone, Copy, PartialEq, Eq, Structural)]
pub enum ParseError {
    /// The first segment existed but did not read as an unsigned 64-bit
    /// integer; carries the underlying failure reason.
    ParseInt(IntParseError),
    /// The input had no segment to read a major version from: it was the
    /// empty string.
    MissingFirstPart,
}

/// A best-effort, point-in-time decomposition of a version string.
/// Segments are positional: a later field is populated only when all the
/// segments before it were present in the input.
#[derive(Debug, Clone)]
pub struct ParsedVersion {
    /// The first dot-separated segment, read as a number. Required.
    pub major: u64,
    /// The second segment, if present and numeric.
    pub minor: Option<u64>,
    /// The third segment, if present and numeric.
    pub patch: Option<u64>,
    /// The fourth segment, verbatim, with no numeric interpretation.
    pub build: Option<String>,
    /// The fifth segment, verbatim, with no numeric interpretation.
    pub pre_release: Option<String>,
}

/// The numeric component at segment position `k`: the segment's value when
/// it exists and reads as an unsigned 64-bit integer, and `None` otherwise.
pub open spec fn spec_component(segs: Seq<Seq<char>>, k: int) -> Option<u64> {
    if k < segs.len() && spec_parse_u64(segs[k]) is Ok {
        Some(spec_parse_u64(segs[k])->Ok_0)
    } else {
        None
    }
}

/// The verbatim text component at segment position `k`: `t` holds exactly
/// the segment's characters when the segment exists, and is `None` otherwise.
pub open spec fn text_component_matches(segs: Seq<Seq<char>>, k: int, t: Option<String>) -> bool {
    match t {
        Some(b) => k < segs.len() && b@ == segs[k],
        None => segs.len() <= k,
    }
}

impl Version {
    /// Create a new version string, storing the given text verbatim.
    pub fn new(version: String) -> (r: Self)
        ensures
            r@ == version@,
    {
        Version { raw: version }
    }

    /// Get the version string, exactly as it was constructed.
    pub fn as_str(&self) -> (r: &str)
        ensures
            r@ == self@,
    {
        self.raw.as_str()
    }

    /// Get the version string with dots instead of separators.
    pub fn dot_version(&self) -> (r: String)
        ensures
            r@ == replace_separators(self@, '.'),
    {
        proof {
            reveal_strlit(".");
        }
        rewrite_separators(self.raw.as_str(), ".")
    }

    /// Get the version string with underscores instead of separators.
    pub fn underscore_version(&self) -> (r: String)
        ensures
            r@ == replace_separators(self@, '_'),
    {
        proof {
            reveal_strlit("_");
        }
        rewrite_separators(self.raw.as_str(), "_")
    }

    /// Get the version string with dashes instead of separators.
    pub fn dash_version(&self) -> (r: String)
        ensures
            r@ == replace_separators(self@, '-'),
    {
        proof {
            reveal_strlit("-");
        }
        rewrite_separators(self.raw.as_str(), "-")
    }

    /// Get the version string with all separators removed.
    pub fn clean_version(&self) -> (r: String)
        ensures
            r@ == strip_separators(self@),
    {
        remove_separators(self.raw.as_str())
    }

    /// Parse the version string into a structured version.
    ///
    /// The text is split on the literal dot alone. The first segment must
    /// read as an unsigned 64-bit integer; everything after it is
    /// best-effort: a malformed or absent later segment never fails the
    /// parse, and segments past the fifth are silently discarded.
    #[verifier::rlimit(60)]
    pub fn parse(&self) -> (r: Result<ParsedVersion, ParseError>)
        ensures
            ({
                let segs = dot_split(self@);
                match r {
                    Ok(p) => {
                        &&& self@.len() > 0
                        &&& spec_parse_u64(segs[0]) == Ok::<u64, IntParseError>(p.major)
                        &&& p.minor == spec_component(segs, 1)
                        &&& p.patch == spec_component(segs, 2)
                        &&& text_component_matches(segs, 3, p.build)
                        &&& text_component_matches(segs, 4, p.pre_release)
                    },
                    Err(ParseError::MissingFirstPart) => self@.len() == 0,
                    Err(ParseError::ParseInt(k)) => self@.len() > 0 && spec_parse_u64(segs[0])
                        == Err::<u64, IntParseError>(k),
                }
            }),
    {
        let s: &str = self.raw.as_str();
        let n = s.unicode_len();
        if n == 0 {
            return Err(ParseError::MissingFirstPart);
        }
        let ghost segs = dot_split(self@);

        let e0 = find_dot(s, 0);
        proof {
            lemma_dot_split_step(s@, e0 as int);
            assert(s@.subrange(0, e0 as int) == s@.take(e0 as int));
            if e0 == n {
                assert(s@.take(e0 as int) =~= s@);
                assert(segs =~= seq![s@]);
            }
            assert(segs[0] == s@.take(e0 as int));
        }
        let major = match parse_u64_in(s, 0, e0) {
            Ok(m) => m,
            Err(e) => {
                return Err(ParseError::ParseInt(e));
            },
        };

        let mut minor: Option<u64> = None;
        let mut patch: Option<u64> = None;
        let mut build: Option<String> = None;
        let mut pre_release: Option<String> = None;

        if e0 < n {
            let ghost t1 = s@.skip(e0 + 1);
            proof {
                assert(segs == seq![s@.take(e0 as int)] + dot_split(t1));
                lemma_dot_split_len(t1);
            }
            let s1 = e0 + 1;
            let e1 = find_dot(s, s1);
            proof {
                assert forall|i: int| 0 <= i < e1 - s1 implies t1[i] != '.' by {
                    assert(t1[i] == s@[s1 + i]);
                }
                if e1 < n {
                    assert(t1[e1 - s1] == s@[e1 as int]);
                }
                lemma_dot_split_step(t1, e1 - s1);
                assert(t1.take(e1 - s1) =~= s@.subrange(s1 as int, e1 as int));
                if e1 == n {
                    assert(t1 =~= s@.subrange(s1 as int, e1 as int));
                    assert(segs.len() == 2);
                }
                assert(segs[1] == s@.subrange(s1 as int, e1 as int));
            }
            minor = match parse_u64_in(s, s1, e1) {
                Ok(v) => Some(v),
                Err(_) => None,
            };

            if e1 < n {
                let ghost t2 = t1.skip(e1 - s1 + 1);
                proof {
                    assert(dot_split(t1) == seq![t1.take(e1 - s1)] + dot_split(t2));
                    lemma_dot_split_len(t2);
                    assert(t2 =~= s@.skip(e1 + 1));
                }
                let s2 = e1 + 1;
                let e2 = find_dot(s, s2);
                proof {
                    assert forall|i: int| 0 <= i < e2 - s2 implies t2[i] != '.' by {
                        assert(t2[i] == s@[s2 + i]);
                    }
                    if e2 < n {
                        assert(t2[e2 - s2] == s@[e2 as int]);
                    }
                    lemma_dot_split_step(t2, e2 - s2);
                    assert(t2.take(e2 - s2) =~= s@.subrange(s2 as int, e2 as int));
                    if e2 == n {
                        assert(t2 =~= s@.subrange(s2 as int, e2 as int));
                        assert(segs.len() == 3);
                    }
                    assert(segs[2] == s@.subrange(s2 as int, e2 as int));
                }
                patch = match parse_u64_in(s, s2, e2) {
                    Ok(v) => Some(v),
                    Err(_) => None,
                };

                if e2 < n {
                    let ghost t3 = t2.skip(e2 - s2 + 1);
                    proof {
                        assert(dot_split(t2) == seq![t2.take(e2 - s2)] + dot_split(t3));
                        lemma_dot_split_len(t3);
                        assert(t3 =~= s@.skip(e2 + 1));
                    }
                    let s3 = e2 + 1;
                    let e3 = find_dot(s, s3);
                    proof {
                        assert forall|i: int| 0 <= i < e3 - s3 implies t3[i] != '.' by {
                            assert(t3[i] == s@[s3 + i]);
                        }
                        if e3 < n {
                            assert(t3[e3 - s3] == s@[e3 as int]);
                        }
                        lemma_dot_split_step(t3, e3 - s3);
                        assert(t3.take(e3 - s3) =~= s@.subrange(s3 as int, e3 as int));
                        if e3 == n {
                            assert(t3 =~= s@.subrange(s3 as int, e3 as int));
                            assert(segs.len() == 4);
                        }
                        assert(segs[3] == s@.subrange(s3 as int, e3 as int));
                    }
                    let b = s.substring_char(s3, e3);
                    build = Some(b.to_owned());

                    if e3 < n {
                        let ghost t4 = t3.skip(e3 - s3 + 1);
                        proof {
                            assert(dot_split(t3) == seq![t3.take(e3 - s3)] + dot_split(t4));
                            lemma_dot_split_len(t4);
                            assert(t4 =~= s@.skip(e3 + 1));
                        }
                        let s4 = e3 + 1;
                        let e4 = find_dot(s, s4);
                        proof {
                            assert forall|i: int| 0 <= i < e4 - s4 implies t4[i] != '.' by {
                                assert(t4[i] == s@[s4 + i]);
                            }
                            if e4 < n {
                                assert(t4[e4 - s4] == s@[e4 as int]);
                            }
                            lemma_dot_split_step(t4, e4 - s4);
                            assert(t4.take(e4 - s4) =~= s@.subrange(s4 as int, e4 as int));
                            assert(segs.len() >= 5);
                            assert(segs[4] == s@.subrange(s4 as int, e4 as int));
                        }
                        let p = s.substring_char(s4, e4);
                        pre_release = Some(p.to_owned());
                    }
                }
            }
        }

        Ok(ParsedVersion { major, minor, patch, build, pre_release })
    }
}

impl ParsedVersion {
    /// Read accessor for the major component.
    pub fn major(&self) -> (r: &u64)
        ensures
            *r == self.major,
    {
        &self.major
    }

    /// Read accessor for the minor component.
    pub fn minor(&self) -> (r: &Option<u64>)
        ensures
            *r == self.minor,
    {
        &self.minor
    }

    /// Read accessor for the patch component.
    pub fn patch(&self) -> (r: &Option<u64>)
        ensures
            *r == self.patch,
    {
        &self.patch
    }

    /// Read accessor for the build component.
    pub fn build(&self) -> (r: &Option<String>)
        ensures
            *r == self.build,
    {
        &self.build
    }

    /// Read accessor for the pre-release component.
    pub fn pre_release(&self) -> (r: &Option<String>)
        ensures
            *r == self.pre_release,
    {
        &self.pre_release
    }
}

impl From<IntParseError> for ParseError {
    fn from(e: IntParseError) -> (r: ParseError) {
        ParseError::ParseInt(e)
    }
}

impl vstd::std_specs::convert::FromSpecImpl<IntParseError> for ParseError {
    open spec fn obeys_from_spec() -> bool {
        true
    }

    open spec fn from_spec(e: IntParseError) -> ParseError {
        ParseError::ParseInt(e)
    }
}

impl ParseError {
    /// A human-readable description of the failure.
    pub fn message(&self) -> (r: String)
        ensures
            self is MissingFirstPart ==> r@
                == "the version string is missing the first part; likely an empty string"@,
            self == ParseError::ParseInt(IntParseError::Empty) ==> r@
                == "failed to parse integer: cannot parse integer from empty string"@,
            self == ParseError::ParseInt(IntParseError::InvalidDigit) ==> r@
                == "failed to parse integer: invalid digit found in string"@,
            self == ParseError::ParseInt(IntParseError::PosOverflow) ==> r@
                == "failed to parse integer: number too large to fit in target type"@,
    {
        match self {
            ParseError::MissingFirstPart => (
                "the version string is missing the first part; likely an empty string"
            ).to_owned(),
            ParseError::ParseInt(IntParseError::Empty) => (
                "failed to parse integer: cannot parse integer from empty string"
            ).to_owned(),
            ParseError::ParseInt(IntParseError::InvalidDigit) => (
                "failed to parse integer: invalid digit found in string"
            ).to_owned(),
            ParseError::ParseInt(IntParseError::PosOverflow) => (
                "failed to parse integer: number too large to fit in target type"
            ).to_owned(),
        }
    }
}

} // verus!
