//! Parsing of the package manager's plaintext inventory listing into
//! structured package records.
//!
//! A line of the listing describes an installed package when it ends with a
//! colon and splits at its first space into a non-empty name and a remainder
//! that starts with the version prefix `v`. Every other line is metadata and
//! is skipped: the parser is tolerant by design and never fails.

use vstd::prelude::*;

use crate::bytes::find_from;
use crate::bytes::first_where;
use crate::bytes::lemma_first_where;
use crate::package::Package;
use crate::package::PackageV;

verus! {

/// `line` with one trailing carriage return removed, as the line splitter
/// does before a line is examined.
pub open spec fn spec_strip_cr(line: Seq<u8>) -> Seq<u8> {
    if line.len() > 0 && line[line.len() - 1] == 13u8 {
        line.drop_last()
    } else {
        line
    }
}

/// Index of the first space of `line`, or its length if it has none.
pub open spec fn spec_space_idx(line: Seq<u8>) -> int {
    first_where(line, |b: u8| b == 32u8)
}

/// Whether `line` (without its line terminator) describes an installed
/// package: it ends with `:`, has a non-empty name before its first space,
/// and the remainder after that space begins with `v`.
pub open spec fn spec_line_ok(line: Seq<u8>) -> bool {
    let i = spec_space_idx(line);
    &&& line.len() > 0
    &&& line[line.len() - 1] == 58u8
    &&& 0 < i
    &&& i + 1 < line.len()
    &&& line[i + 1] == 118u8
}

/// The record an accepted line describes: the name up to the first space and
/// the bare version, with the leading `v` and the trailing `:` stripped.
pub open spec fn spec_line_record(line: Seq<u8>) -> PackageV {
    let i = spec_space_idx(line);
    PackageV {
        name: line.take(i),
        version: line.subrange(i + 2, line.len() - 1),
        new_version: None,
    }
}

/// The records one line contributes: one if accepted, none otherwise.
pub open spec fn spec_line_records(line: Seq<u8>) -> Seq<PackageV> {
    if spec_line_ok(line) {
        seq![spec_line_record(line)]
    } else {
        Seq::empty()
    }
}

/// The records of a whole inventory text, line by line in input order. Lines
/// are separated by `\n`; a trailing carriage return of each line is
/// stripped.
pub open spec fn spec_parse_inventory(t: Seq<u8>) -> Seq<PackageV>
    decreases t.len(),
{
    if t.len() == 0 {
        Seq::empty()
    } else {
        let i = first_where(t, |b: u8| b == 10u8);
        if 0 <= i && i < t.len() {
            spec_line_records(spec_strip_cr(t.take(i))) + spec_parse_inventory(t.skip(i + 1))
        } else {
            spec_line_records(spec_strip_cr(t))
        }
    }
}

/// Parsing is a pure function of the text: parsing the same text twice, or
/// equal texts, yields identical record sequences in the same order.
pub proof fn lemma_parse_deterministic(a: Seq<u8>, b: Seq<u8>)
    requires
        a == b,
    ensures
        spec_parse_inventory(a) == spec_parse_inventory(b),
{
}

/// Parsing is order-preserving: the records of a text that ends at a line
/// boundary, followed by more text, are the records of the first part
/// followed by the records of the rest, in that order.
pub proof fn lemma_parse_concat(t: Seq<u8>, u: Seq<u8>)
    requires
        t.len() > 0,
        t[t.len() - 1] == 10u8,
    ensures
        spec_parse_inventory(t + u) == spec_parse_inventory(t) + spec_parse_inventory(u),
    decreases t.len(),
{
    let nl = |b: u8| b == 10u8;
    lemma_first_where(t, nl);
    lemma_first_where(t + u, nl);
    let f = first_where(t, nl);
    assert(f < t.len()) by {
        if f == t.len() {
            assert(!nl(t[t.len() - 1]));
        }
    }
    assert(forall|k: int| 0 <= k < t.len() ==> (t + u)[k] == t[k]);
    assert(first_where(t + u, nl) == f) by {
        let g = first_where(t + u, nl);
        if g < f {
            assert(nl((t + u)[g]));
            assert(!nl(t[g]));
        }
        if f < g {
            assert(!nl((t + u)[f]));
        }
    }
    assert((t + u).take(f) =~= t.take(f));
    let recs = spec_line_records(spec_strip_cr(t.take(f)));
    if f + 1 == t.len() {
        assert((t + u).skip(f + 1) =~= u);
        assert(t.skip(f + 1) =~= Seq::<u8>::empty());
        assert(spec_parse_inventory(t) == recs + spec_parse_inventory(Seq::<u8>::empty()));
        assert((recs + Seq::<PackageV>::empty()) + spec_parse_inventory(u) =~= recs
            + spec_parse_inventory(u));
    } else {
        let t2 = t.skip(f + 1);
        assert(t2[t2.len() - 1] == t[t.len() - 1]);
        lemma_parse_concat(t2, u);
        assert((t + u).skip(f + 1) =~= t2 + u);
        assert(recs + (spec_parse_inventory(t2) + spec_parse_inventory(u)) =~= (recs
            + spec_parse_inventory(t2)) + spec_parse_inventory(u));
    }
}

/// Every parsed record is well formed: its name is non-empty, and its latest
/// version is still unresolved.
pub proof fn lemma_parse_records_wf(t: Seq<u8>)
    ensures
        forall|k: int|
            0 <= k < spec_parse_inventory(t).len() ==> (#[trigger] spec_parse_inventory(t)[k]).wf()
                && spec_parse_inventory(t)[k].new_version is None,
    decreases t.len(),
{
    if t.len() > 0 {
        let nl = |b: u8| b == 10u8;
        let i = first_where(t, nl);
        let line = if 0 <= i && i < t.len() {
            spec_strip_cr(t.take(i))
        } else {
            spec_strip_cr(t)
        };
        if spec_line_ok(line) {
            lemma_first_where(line, |b: u8| b == 32u8);
            assert(spec_line_record(line).wf());
        }
        if 0 <= i && i < t.len() {
            lemma_parse_records_wf(t.skip(i + 1));
        }
    }
}

/// One line of the listing, without its terminator, parsed into a record if
/// it describes an installed package.
fn parse_line(line: &[u8]) -> (r: Option<Package>)
    ensures
        r is Some <==> spec_line_ok(line@),
        r matches Some(p) ==> p@ == spec_line_record(line@),
{
    proof {
        lemma_first_where(line@, |b: u8| b == 32u8);
    }
    let n = line.len();
    if n == 0 {
        return None;
    }
    if line[n - 1] != 58 {
        return None;
    }
    let i = find_from(line, 0, 32);
    proof {
        assert(i as int == spec_space_idx(line@)) by {
            let p = |b: u8| b == 32u8;
            let f = first_where(line@, p);
            if f < i as int {
                assert(line@[f] != 32);
            }
            if (i as int) < f {
                assert(!p(line@[i as int]));
            }
        }
    }
    if i == 0 {
        return None;
    }
    if i >= n {
        return None;
    }
    if i + 1 >= n {
        return None;
    }
    if line[i + 1] != 118 {
        return None;
    }
    assert(i + 1 != n - 1);
    let name = vstd::slice::slice_to_vec(&line[0..i]);
    let version = vstd::slice::slice_to_vec(&line[i + 2..n - 1]);
    proof {
        assert(line@.subrange(0, i as int) =~= line@.take(i as int));
    }
    Some(Package { name, version, new_version: None })
}

/// Parse the full inventory listing into records, in listing order.
///
/// The result is pinned to `spec_parse_inventory`, so parsing is a pure
/// function of the text: repeated parses of equal text yield equal record
/// sequences in the same order.
#[verifier::rlimit(50)]
pub fn parse_installed_packages(text: &[u8]) -> (r: Vec<Package>)
    ensures
        r@.map_values(|p: Package| p@) == spec_parse_inventory(text@),
{
    let mut out: Vec<Package> = Vec::new();
    let mut pos: usize = 0;
    proof {
        assert(text@.skip(0) =~= text@);
        assert(out@.map_values(|p: Package| p@) =~= Seq::<PackageV>::empty());
    }
    while pos < text.len()
        invariant
            pos <= text@.len(),
            out@.map_values(|p: Package| p@) + spec_parse_inventory(text@.skip(pos as int))
                == spec_parse_inventory(text@),
        decreases text@.len() - pos,
    {
        let j = find_from(text, pos, 10);
        let line_end = if j > pos && text[j - 1] == 13 {
            j - 1
        } else {
            j
        };
        let parsed = parse_line(&text[pos..line_end]);
        let new_pos = if j < text.len() {
            j + 1
        } else {
            j
        };
        let ghost prev = out@.map_values(|p: Package| p@);
        let ghost line = text@.subrange(pos as int, line_end as int);
        let ghost recs = spec_line_records(line);
        let ghost rest = spec_parse_inventory(text@.skip(new_pos as int));
        proof {
            let s = text@.skip(pos as int);
            let nl = |b: u8| b == 10u8;
            lemma_first_where(s, nl);
            let f = first_where(s, nl);
            assert forall|k: int| 0 <= k < s.len() implies s[k] == text@[pos + k] by {}
            assert(f == j - pos) by {
                if f < j - pos {
                    assert(s[f] == 10);
                    assert(text@[pos + f] != 10);
                }
                if j - pos < f {
                    assert(!nl(s[j - pos]));
                }
            }
            if f < s.len() {
                assert(s.take(f) =~= text@.subrange(pos as int, j as int));
                assert(spec_strip_cr(s.take(f)) =~= line);
                assert(s.skip(f + 1) =~= text@.skip(new_pos as int));
                assert(spec_parse_inventory(s) == recs + rest);
            } else {
                assert(s =~= text@.subrange(pos as int, j as int));
                assert(spec_strip_cr(s) =~= line);
                assert(text@.skip(new_pos as int) =~= Seq::<u8>::empty());
                assert(spec_parse_inventory(s) == recs);
                assert(recs + rest =~= recs);
            }
            assert(recs == (match parsed {
                Some(pkg) => seq![pkg@],
                None => Seq::<PackageV>::empty(),
            }));
        }
        match parsed {
            Some(pkg) => {
                proof {
                    assert(out@.push(pkg).map_values(|p: Package| p@) =~= prev.push(pkg@));
                }
                out.push(pkg);
            },
            None => (),
        }
        proof {
            assert(out@.map_values(|p: Package| p@) + rest =~= prev + (recs + rest));
        }
        pos = new_pos;
    }
    proof {
        assert(text@.skip(pos as int) =~= Seq::<u8>::empty());
        assert(out@.map_values(|p: Package| p@) + Seq::<PackageV>::empty() =~= out@.map_values(
            |p: Package| p@,
        ));
    }
    out
}

} // verus!
