//! Format-literal parsing and per-call validation.
//!
//! A format literal is scanned left to right; `%d` yields a 64-bit signed
//! integer placeholder and `%f` a 64-bit float placeholder, in order.  Any
//! other `%` sequence — including a `%` that ends the literal — is an error:
//! log sites are validated before producers are built, and a bad literal
//! aborts that build.  A `Nanolog` is one validated call: the literal
//! together with its placeholder list, checked against the number of
//! arguments the caller supplied.

use vstd::prelude::*;
use vstd::string::StrSliceExecFns;

verus! {

/// Relies on std's `String::push`: appends exactly the given character.
pub assume_specification[ String::push ](s: &mut String, ch: char)
    ensures
        final(s)@ == old(s)@.push(ch),
;

/// One placeholder in a format literal.
#[derive(Clone, Copy, PartialEq, Eq, Structural, Debug)]
pub enum NanologType {
    /// `%d`: a 64-bit signed integer argument.
    Int,
    /// `%f`: a 64-bit IEEE-754 float argument.
    Float,
}

/// Why a log call was rejected at build time.
#[derive(Clone, Copy, PartialEq, Eq, Structural, Debug)]
pub enum FormatError {
    /// The literal holds a `%` that is not followed by `d` or `f`.
    UnknownSpecifier,
    /// The literal's placeholder count differs from the number of arguments
    /// supplied at the call.
    ArityMismatch { expected: usize, supplied: usize },
}

impl NanologType {
    /// The character naming this placeholder type in a record-shape
    /// signature.
    pub open spec fn spec_type_char(self) -> char {
        match self {
            NanologType::Int => 'D',
            NanologType::Float => 'F',
        }
    }

    /// The one-character signature of this placeholder type, as used in the
    /// names of generated record structs.
    pub fn to_type_string(&self) -> (r: &'static str)
        ensures
            r@ == seq![self.spec_type_char()],
    {
        match self {
            NanologType::Int => {
                proof {
                    reveal_strlit("D");
                }
                "D"
            },
            NanologType::Float => {
                proof {
                    reveal_strlit("F");
                }
                "F"
            },
        }
    }
}

/// The placeholder list denoted by a format literal, or `None` when the
/// literal holds an unknown `%` sequence.
pub open spec fn spec_parse_format(s: Seq<char>) -> Option<Seq<NanologType>>
    decreases s.len(),
{
    if s.len() == 0 {
        Some(Seq::<NanologType>::empty())
    } else if s[0] == '%' {
        if s.len() < 2 {
            None
        } else if s[1] == 'd' {
            match spec_parse_format(s.skip(2)) {
                Some(rest) => Some(seq![NanologType::Int] + rest),
                None => None,
            }
        } else if s[1] == 'f' {
            match spec_parse_format(s.skip(2)) {
                Some(rest) => Some(seq![NanologType::Float] + rest),
                None => None,
            }
        } else {
            None
        }
    } else {
        spec_parse_format(s.skip(1))
    }
}

/// Scan a format literal into its ordered placeholder list.
pub fn find_format_specifiers(input: &str) -> (r: Result<Vec<NanologType>, FormatError>)
    ensures
        r matches Ok(v) ==> spec_parse_format(input@) == Some(v@),
        r is Err <==> spec_parse_format(input@) is None,
        r is Err ==> r == Result::<Vec<NanologType>, FormatError>::Err(
            FormatError::UnknownSpecifier,
        ),
{
    let n = input.unicode_len();
    let mut out: Vec<NanologType> = Vec::new();
    let mut i: usize = 0;
    proof {
        assert(input@.skip(0) =~= input@);
        if spec_parse_format(input@) is Some {
            assert(out@ + spec_parse_format(input@).unwrap() =~= spec_parse_format(
                input@,
            ).unwrap());
        }
    }
    while i < n
        invariant
            n == input@.len(),
            0 <= i <= n,
            spec_parse_format(input@) == (match spec_parse_format(input@.skip(i as int)) {
                Some(rest) => Some(out@ + rest),
                None => None::<Seq<NanologType>>,
            }),
        decreases n - i,
    {
        let ghost tail_i = input@.skip(i as int);
        let c = input.get_char(i);
        if c == '%' {
            if i + 1 >= n {
                return Err(FormatError::UnknownSpecifier);
            }
            let c2 = input.get_char(i + 1);
            let spec = if c2 == 'd' {
                NanologType::Int
            } else if c2 == 'f' {
                NanologType::Float
            } else {
                return Err(FormatError::UnknownSpecifier);
            };
            proof {
                assert(tail_i.skip(2) =~= input@.skip(i + 2));
                let rest2 = spec_parse_format(input@.skip(i + 2));
                if rest2 is Some {
                    assert(out@ + (seq![spec] + rest2.unwrap()) =~= out@.push(spec)
                        + rest2.unwrap());
                }
            }
            out.push(spec);
            i = i + 2;
        } else {
            proof {
                assert(tail_i.skip(1) =~= input@.skip(i + 1));
            }
            i = i + 1;
        }
    }
    proof {
        assert(input@.skip(n as int) =~= Seq::<char>::empty());
        assert(out@ + Seq::<NanologType>::empty() =~= out@);
    }
    Ok(out)
}

/// One validated log call: the format literal and its placeholders, with the
/// placeholder count already checked against the call's argument count.
pub struct Nanolog {
    pub fmt_literal: String,
    pub fmt_specifiers: Vec<NanologType>,
}

impl Nanolog {
    /// The stored placeholders are exactly what the literal denotes.
    pub open spec fn wf(self) -> bool {
        spec_parse_format(self.fmt_literal@) == Some(self.fmt_specifiers@)
    }

    /// Validate one log call from its format literal and the number of
    /// user-supplied arguments.  Fails on an unknown specifier or on a
    /// placeholder/argument arity mismatch; both are fatal build errors for
    /// the site.
    pub fn parse(fmt_literal: String, n_args: usize) -> (r: Result<Nanolog, FormatError>)
        ensures
            r is Ok <==> (spec_parse_format(fmt_literal@) matches Some(ps) && ps.len() == n_args),
            r matches Ok(nl) ==> {
                &&& nl.wf()
                &&& nl.fmt_literal@ == fmt_literal@
                &&& nl.fmt_specifiers@.len() == n_args
            },
            r matches Err(e) ==> match e {
                FormatError::UnknownSpecifier => spec_parse_format(fmt_literal@) is None,
                FormatError::ArityMismatch { expected, supplied } => {
                    &&& spec_parse_format(fmt_literal@) matches Some(ps) && ps.len() == expected
                    &&& supplied == n_args
                    &&& expected != n_args
                },
            },
    {
        match find_format_specifiers(fmt_literal.as_str()) {
            Err(e) => Err(e),
            Ok(specs) => {
                if specs.len() != n_args {
                    Err(FormatError::ArityMismatch { expected: specs.len(), supplied: n_args })
                } else {
                    Ok(Nanolog { fmt_literal, fmt_specifiers: specs })
                }
            },
        }
    }

    /// The record-shape signature of a placeholder list: one character per
    /// placeholder, in order.
    pub open spec fn spec_suffix(ps: Seq<NanologType>) -> Seq<char>
        decreases ps.len(),
    {
        if ps.len() == 0 {
            Seq::<char>::empty()
        } else {
            Self::spec_suffix(ps.drop_last()).push(ps.last().spec_type_char())
        }
    }

    /// The record-shape signature of this call, e.g. `"DFD"`; two calls with
    /// the same suffix share one generated record struct.
    pub fn get_log_type_suffix(&self) -> (r: String)
        ensures
            r@ == Self::spec_suffix(self.fmt_specifiers@),
    {
        log_type_suffix(&self.fmt_specifiers)
    }
}

/// The record-shape signature of a placeholder list, as a string of
/// one-character type signatures.
pub fn log_type_suffix(specs: &Vec<NanologType>) -> (r: String)
    ensures
        r@ == Nanolog::spec_suffix(specs@),
{
    let mut s = String::new();
    let mut i: usize = 0;
    while i < specs.len()
        invariant
            0 <= i <= specs@.len(),
            s@ == Nanolog::spec_suffix(specs@.subrange(0, i as int)),
        decreases specs@.len() - i,
    {
        match specs[i] {
            NanologType::Int => s.push('D'),
            NanologType::Float => s.push('F'),
        }
        i = i + 1;
        proof {
            let prefix = specs@.subrange(0, i as int);
            assert(prefix.drop_last() =~= specs@.subrange(0, i - 1));
        }
    }
    proof {
        assert(specs@.subrange(0, specs@.len() as int) =~= specs@);
    }
    s
}

} // verus!
