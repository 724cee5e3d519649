//! Build-time log-site registry.
//!
//! Every invocation of the log macro found in the source is registered here
//! before the producers are compiled.  Registration validates the format
//! literal, checks placeholder/argument arity, rejects duplicate
//! `(source file, source line)` keys, and assigns each site a dense
//! identifier: its index in discovery order.  The registry then answers the
//! consumer-side table lookups — the format literal and the record size of
//! each site — and yields the set of distinct record shapes for which record
//! structs are generated.

use crate::fmt::{spec_parse_format, FormatError, Nanolog, NanologType};
use vstd::prelude::*;

verus! {

/// One discovered log site.
pub struct LogSite {
    /// Logical path of the source file holding the invocation.
    pub source_file: String,
    /// 1-based line of the invocation.
    pub source_line: u64,
    /// The verbatim format literal.
    pub format_literal: String,
    /// The placeholder list the literal denotes, in order.
    pub placeholders: Vec<NanologType>,
}

impl LogSite {
    /// The stored placeholders are what the literal denotes, and the record
    /// the site emits fits in an addressable buffer.
    pub open spec fn wf(self) -> bool {
        &&& spec_parse_format(self.format_literal@) == Some(self.placeholders@)
        &&& 16 + 8 * self.placeholders@.len() <= usize::MAX
    }
}

/// Why a site was rejected at registration.
#[derive(Clone, Copy, PartialEq, Eq, Structural, Debug)]
pub enum RegistryError {
    /// The format literal holds a `%` not followed by a known specifier.
    UnknownSpecifier,
    /// Placeholder count differs from the supplied argument count.
    ArityMismatch { expected: usize, supplied: usize },
    /// A site with the same `(source file, source line)` is already
    /// registered.
    DuplicateSite,
}

/// The registry of all discovered sites; a site's identifier is its index.
pub struct SiteRegistry {
    pub sites: Vec<LogSite>,
}

impl SiteRegistry {
    /// Every stored site is valid and no two share a source key.
    pub open spec fn wf(self) -> bool {
        &&& forall|i: int| 0 <= i < self.sites@.len() ==> (#[trigger] self.sites@[i]).wf()
        &&& forall|i: int, j: int|
            0 <= i < j < self.sites@.len() ==> !(#[trigger] self.sites@[i].source_file@
                == #[trigger] self.sites@[j].source_file@ && self.sites@[i].source_line
                == self.sites@[j].source_line)
    }

    /// Some registered site already carries this `(file, line)` key.
    pub open spec fn key_taken(self, file: Seq<char>, line: u64) -> bool {
        exists|i: int|
            0 <= i < self.sites@.len() && (#[trigger] self.sites@[i]).source_file@ == file
                && self.sites@[i].source_line == line
    }

    /// An empty registry.
    pub fn new() -> (r: SiteRegistry)
        ensures
            r.wf(),
            r.sites@.len() == 0,
    {
        SiteRegistry { sites: Vec::new() }
    }

    /// How many sites have been registered.
    pub fn site_count(&self) -> (n: usize)
        ensures
            n == self.sites@.len(),
    {
        self.sites.len()
    }

    /// Register one discovered invocation: the source key, the format
    /// literal, and how many arguments the call supplies.  On success the
    /// site is appended and its dense identifier — the previous site count —
    /// is returned.  A bad literal, an arity mismatch or a duplicate key
    /// rejects the invocation and leaves the registry unchanged; each is a
    /// fatal build error for the caller.
    pub fn register(
        &mut self,
        source_file: String,
        source_line: u64,
        format_literal: String,
        n_args: usize,
    ) -> (r: Result<u64, RegistryError>)
        requires
            old(self).wf(),
            8 * n_args + 16 <= usize::MAX,
        ensures
            final(self).wf(),
            r is Ok <==> (spec_parse_format(format_literal@) matches Some(ps) && ps.len() == n_args
                && !old(self).key_taken(source_file@, source_line)),
            r matches Ok(id) ==> {
                &&& id == old(self).sites@.len()
                &&& final(self).sites@.len() == old(self).sites@.len() + 1
                &&& final(self).sites@.drop_last() == old(self).sites@
                &&& final(self).sites@.last().source_file@ == source_file@
                &&& final(self).sites@.last().source_line == source_line
                &&& final(self).sites@.last().format_literal@ == format_literal@
                &&& Some(final(self).sites@.last().placeholders@) == spec_parse_format(
                    format_literal@,
                )
            },
            r is Err ==> *final(self) == *old(self),
            r matches Err(e) ==> match e {
                RegistryError::UnknownSpecifier => spec_parse_format(format_literal@) is None,
                RegistryError::ArityMismatch { expected, supplied } => {
                    &&& spec_parse_format(format_literal@) matches Some(ps) && ps.len() == expected
                    &&& supplied == n_args
                    &&& expected != n_args
                },
                RegistryError::DuplicateSite => old(self).key_taken(source_file@, source_line) && (
                spec_parse_format(format_literal@) matches Some(ps) && ps.len() == n_args),
            },
    {
        let nl = match Nanolog::parse(format_literal, n_args) {
            Err(FormatError::UnknownSpecifier) => {
                return Err(RegistryError::UnknownSpecifier);
            },
            Err(FormatError::ArityMismatch { expected, supplied }) => {
                return Err(RegistryError::ArityMismatch { expected, supplied });
            },
            Ok(nl) => nl,
        };
        let mut i: usize = 0;
        while i < self.sites.len()
            invariant
                *self == *old(self),
                old(self).wf(),
                spec_parse_format(format_literal@) == Some(nl.fmt_specifiers@),
                nl.fmt_specifiers@.len() == n_args,
                0 <= i <= self.sites@.len(),
                forall|k: int|
                    0 <= k < i ==> !((#[trigger] self.sites@[k]).source_file@ == source_file@
                        && self.sites@[k].source_line == source_line),
            decreases self.sites@.len() - i,
        {
            if self.sites[i].source_line == source_line && self.sites[i].source_file
                == source_file {
                proof {
                    assert(old(self).sites@[i as int].source_file@ == source_file@);
                    assert(old(self).key_taken(source_file@, source_line));
                }
                return Err(RegistryError::DuplicateSite);
            }
            i = i + 1;
        }
        assert(!self.key_taken(source_file@, source_line));
        let id = self.sites.len() as u64;
        let site = LogSite {
            source_file,
            source_line,
            format_literal: nl.fmt_literal,
            placeholders: nl.fmt_specifiers,
        };
        self.sites.push(site);
        proof {
            assert(self.sites@.drop_last() =~= old(self).sites@);
        }
        Ok(id)
    }

    /// The byte size of the fields of site `site_id`'s record — eight bytes
    /// per placeholder — or `None` for an unknown identifier.  The total
    /// bytes a site writes per record is this plus the 16-byte header.
    pub fn record_size(&self, site_id: u64) -> (r: Option<usize>)
        requires
            self.wf(),
        ensures
            r is Some <==> site_id < self.sites@.len(),
            r matches Some(sz) ==> sz == 8 * self.sites@[site_id as int].placeholders@.len(),
    {
        if site_id < self.sites.len() as u64 {
            Some(8 * self.sites[site_id as usize].placeholders.len())
        } else {
            None
        }
    }

    /// How many placeholders site `site_id` has, or `None` for an unknown
    /// identifier.
    pub fn placeholder_count(&self, site_id: u64) -> (r: Option<usize>)
        ensures
            r is Some <==> site_id < self.sites@.len(),
            r matches Some(c) ==> c == self.sites@[site_id as int].placeholders@.len(),
    {
        if site_id < self.sites.len() as u64 {
            Some(self.sites[site_id as usize].placeholders.len())
        } else {
            None
        }
    }

    /// The format literal of site `site_id`, or `None` for an unknown
    /// identifier.
    pub fn format_literal(&self, site_id: u64) -> (r: Option<&String>)
        ensures
            r is Some <==> site_id < self.sites@.len(),
            r matches Some(s) ==> s@ == self.sites@[site_id as int].format_literal@,
    {
        if site_id < self.sites.len() as u64 {
            Some(&self.sites[site_id as usize].format_literal)
        } else {
            None
        }
    }

    /// The consumer-side literal table: the format literal of every site,
    /// indexed by site identifier.
    pub fn literals(&self) -> (r: Vec<String>)
        ensures
            r@.len() == self.sites@.len(),
            forall|i: int|
                0 <= i < r@.len() ==> (#[trigger] r@[i])@ == self.sites@[i].format_literal@,
    {
        let mut out: Vec<String> = Vec::new();
        let mut i: usize = 0;
        while i < self.sites.len()
            invariant
                0 <= i <= self.sites@.len(),
                out@.len() == i,
                forall|k: int|
                    0 <= k < i ==> (#[trigger] out@[k])@ == self.sites@[k].format_literal@,
            decreases self.sites@.len() - i,
        {
            out.push(self.sites[i].format_literal.clone());
            i = i + 1;
        }
        out
    }

    /// The distinct record shapes over a site list, by signature, in
    /// first-appearance order.
    pub open spec fn spec_distinct_shapes(sites: Seq<LogSite>) -> Seq<Seq<char>>
        decreases sites.len(),
    {
        if sites.len() == 0 {
            Seq::<Seq<char>>::empty()
        } else {
            let prefix = Self::spec_distinct_shapes(sites.drop_last());
            let suffix = Nanolog::spec_suffix(sites.last().placeholders@);
            if prefix.contains(suffix) {
                prefix
            } else {
                prefix.push(suffix)
            }
        }
    }

    /// The distinct-shape list is a set: no signature twice, every site's
    /// signature present, and nothing that no site has.
    pub proof fn lemma_distinct_shapes_exact(sites: Seq<LogSite>)
        ensures
            forall|i: int, j: int|
                0 <= i < j < Self::spec_distinct_shapes(sites).len()
                    ==> Self::spec_distinct_shapes(sites)[i] != Self::spec_distinct_shapes(
                    sites,
                )[j],
            forall|i: int|
                0 <= i < sites.len() ==> Self::spec_distinct_shapes(sites).contains(
                    Nanolog::spec_suffix(#[trigger] sites[i].placeholders@),
                ),
            forall|k: int|
                0 <= k < Self::spec_distinct_shapes(sites).len() ==> exists|i: int|
                    0 <= i < sites.len() && #[trigger] Self::spec_distinct_shapes(sites)[k]
                        == Nanolog::spec_suffix(sites[i].placeholders@),
        decreases sites.len(),
    {
        if sites.len() > 0 {
            Self::lemma_distinct_shapes_exact(sites.drop_last());
            let prefix = Self::spec_distinct_shapes(sites.drop_last());
            let shapes = Self::spec_distinct_shapes(sites);
            let last_suffix = Nanolog::spec_suffix(sites.last().placeholders@);
            assert forall|i: int| 0 <= i < sites.len() implies shapes.contains(
                Nanolog::spec_suffix(#[trigger] sites[i].placeholders@),
            ) by {
                if i < sites.len() - 1 {
                    assert(sites.drop_last()[i] == sites[i]);
                    let s = Nanolog::spec_suffix(sites[i].placeholders@);
                    let w = choose|w: int| 0 <= w < prefix.len() && prefix[w] == s;
                    assert(shapes[w] == s);
                } else {
                    if prefix.contains(last_suffix) {
                        let w = choose|w: int| 0 <= w < prefix.len() && prefix[w] == last_suffix;
                        assert(shapes[w] == last_suffix);
                    } else {
                        assert(shapes.last() == last_suffix);
                    }
                }
            }
            assert forall|k: int| 0 <= k < shapes.len() implies exists|i: int|
                0 <= i < sites.len() && #[trigger] shapes[k] == Nanolog::spec_suffix(
                    sites[i].placeholders@,
                ) by {
                if k < prefix.len() {
                    let i = choose|i: int|
                        0 <= i < sites.drop_last().len() && prefix[k] == Nanolog::spec_suffix(
                            sites.drop_last()[i].placeholders@,
                        );
                    assert(sites.drop_last()[i] == sites[i]);
                    assert(shapes[k] == Nanolog::spec_suffix(sites[i].placeholders@));
                } else {
                    assert(shapes[k] == last_suffix);
                    assert(shapes[k] == Nanolog::spec_suffix(sites[sites.len() - 1].placeholders@));
                }
            }
            assert forall|i: int, j: int| 0 <= i < j < shapes.len() implies shapes[i] != shapes[j]
                by {
                if j >= prefix.len() {
                    assert(shapes[j] == last_suffix);
                    assert(!prefix.contains(last_suffix));
                    assert(prefix[i] == shapes[i]);
                }
            }
        }
    }

    /// The distinct record shapes of the registered sites, one signature
    /// string each, in the order a shape first appears; one record struct is
    /// generated per entry.
    pub fn distinct_shapes(&self) -> (r: Vec<String>)
        ensures
            r@.map_values(|s: String| s@) == Self::spec_distinct_shapes(self.sites@),
    {
        let mut out: Vec<String> = Vec::new();
        let mut i: usize = 0;
        proof {
            assert(self.sites@.subrange(0, 0) =~= Seq::<LogSite>::empty());
            assert(out@.map_values(|s: String| s@) =~= Self::spec_distinct_shapes(
                self.sites@.subrange(0, 0),
            ));
        }
        while i < self.sites.len()
            invariant
                0 <= i <= self.sites@.len(),
                out@.map_values(|s: String| s@) == Self::spec_distinct_shapes(
                    self.sites@.subrange(0, i as int),
                ),
            decreases self.sites@.len() - i,
        {
            let suffix = crate::fmt::log_type_suffix(&self.sites[i].placeholders);
            let mut found = false;
            let mut j: usize = 0;
            while j < out.len()
                invariant
                    0 <= j <= out@.len(),
                    found <==> exists|k: int| 0 <= k < j && (#[trigger] out@[k])@ == suffix@,
                decreases out@.len() - j,
            {
                if !found && out[j] == suffix {
                    found = true;
                }
                j = j + 1;
            }
            let ghost shapes = out@.map_values(|s: String| s@);
            proof {
                assert(found <==> shapes.contains(suffix@)) by {
                    if found {
                        let k = choose|k: int| 0 <= k < out@.len() && (#[trigger] out@[k])@
                            == suffix@;
                        assert(shapes[k] == suffix@);
                    }
                    if shapes.contains(suffix@) {
                        let k = choose|k: int| 0 <= k < shapes.len() && shapes[k] == suffix@;
                        assert(out@[k]@ == suffix@);
                    }
                }
                assert(self.sites@.subrange(0, i + 1).drop_last() =~= self.sites@.subrange(
                    0,
                    i as int,
                ));
                assert(self.sites@.subrange(0, i + 1).last() == self.sites@[i as int]);
            }
            if !found {
                out.push(suffix);
            }
            i = i + 1;
        }
        proof {
            assert(self.sites@.subrange(0, self.sites@.len() as int) =~= self.sites@);
        }
        out
    }
}

} // verus!
