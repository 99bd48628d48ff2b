//! Paged prefix scans over a snapshot of remote state, modelled as the list
//! of (address, value) entries in address order.  A page holds at most
//! `page_size` entries whose addresses start with the map's prefix, resuming
//! strictly after a given address; successive pages neither overlap nor leave
//! a gap.
use vstd::prelude::*;

verus! {

/// Strict lexicographic order on byte strings: the order the remote node
/// stores addresses in.
pub open spec fn lex_lt(a: Seq<u8>, b: Seq<u8>) -> bool
    decreases a.len(),
{
    if b.len() == 0 {
        false
    } else if a.len() == 0 {
        true
    } else if a[0] < b[0] {
        true
    } else if a[0] > b[0] {
        false
    } else {
        lex_lt(a.skip(1), b.skip(1))
    }
}

/// The order is strict: nothing is below itself.
pub proof fn lemma_lex_irreflexive(a: Seq<u8>)
    ensures
        !lex_lt(a, a),
    decreases a.len(),
{
    if a.len() > 0 {
        lemma_lex_irreflexive(a.skip(1));
    }
}

/// The order is asymmetric.
pub proof fn lemma_lex_asymmetric(a: Seq<u8>, b: Seq<u8>)
    requires
        lex_lt(a, b),
    ensures
        !lex_lt(b, a),
    decreases a.len(),
{
    if b.len() == 0 {
    } else if a.len() == 0 {
    } else if a[0] == b[0] {
        lemma_lex_asymmetric(a.skip(1), b.skip(1));
    }
}

/// `p` is a prefix of `s`.
pub open spec fn is_prefix_of(p: Seq<u8>, s: Seq<u8>) -> bool {
    p.len() <= s.len() && s.take(p.len() as int) == p
}

/// One entry of the remote state snapshot: its address and its raw value.
pub type ScanEntry = (Vec<u8>, Vec<u8>);

/// A snapshot in strictly increasing address order.
pub open spec fn sorted_by_address(entries: Seq<ScanEntry>) -> bool {
    forall|i: int, j: int|
        0 <= i < j < entries.len() ==> lex_lt(#[trigger] entries[i].0@, #[trigger] entries[j].0@)
}

/// Whether an entry belongs to the scan: its address starts with the prefix
/// and lies strictly after the resume address, if one is given.
pub open spec fn scan_match(e: ScanEntry, prefix: Seq<u8>, after: Option<Seq<u8>>) -> bool {
    is_prefix_of(prefix, e.0@) && match after {
        Some(a) => lex_lt(a, e.0@),
        None => true,
    }
}

/// All the entries the scan would return, in order, before paging.
pub open spec fn scan_filter(entries: Seq<ScanEntry>, prefix: Seq<u8>, after: Option<Seq<u8>>) -> Seq<
    ScanEntry,
>
    decreases entries.len(),
{
    if entries.len() == 0 {
        Seq::empty()
    } else if scan_match(entries[0], prefix, after) {
        seq![entries[0]] + scan_filter(entries.drop_first(), prefix, after)
    } else {
        scan_filter(entries.drop_first(), prefix, after)
    }
}

/// The filter distributes over concatenation.
pub proof fn lemma_scan_filter_app(
    s1: Seq<ScanEntry>,
    s2: Seq<ScanEntry>,
    prefix: Seq<u8>,
    after: Option<Seq<u8>>,
)
    ensures
        scan_filter(s1 + s2, prefix, after) =~= scan_filter(s1, prefix, after) + scan_filter(
            s2,
            prefix,
            after,
        ),
    decreases s1.len(),
{
    if s1.len() == 0 {
        assert(s1 + s2 =~= s2);
    } else {
        assert((s1 + s2).drop_first() =~= s1.drop_first() + s2);
        assert((s1 + s2)[0] == s1[0]);
        lemma_scan_filter_app(s1.drop_first(), s2, prefix, after);
    }
}

/// Every filtered entry is one of the snapshot's entries.
pub proof fn lemma_scan_filter_member(
    entries: Seq<ScanEntry>,
    prefix: Seq<u8>,
    after: Option<Seq<u8>>,
    j: int,
)
    requires
        0 <= j < scan_filter(entries, prefix, after).len(),
    ensures
        exists|i: int|
            0 <= i < entries.len() && entries[i] == scan_filter(entries, prefix, after)[j]
                && scan_match(#[trigger] entries[i], prefix, after),
    decreases entries.len(),
{
    let f = scan_filter(entries, prefix, after);
    if entries.len() == 0 {
    } else if scan_match(entries[0], prefix, after) {
        if j == 0 {
            assert(entries[0] == f[0] && scan_match(entries[0], prefix, after));
        } else {
            lemma_scan_filter_member(entries.drop_first(), prefix, after, j - 1);
            let i0 = choose|i: int|
                0 <= i < entries.drop_first().len() && entries.drop_first()[i] == scan_filter(
                    entries.drop_first(),
                    prefix,
                    after,
                )[j - 1] && scan_match(#[trigger] entries.drop_first()[i], prefix, after);
            assert(entries[i0 + 1] == f[j] && scan_match(entries[i0 + 1], prefix, after));
        }
    } else {
        lemma_scan_filter_member(entries.drop_first(), prefix, after, j);
        let i0 = choose|i: int|
            0 <= i < entries.drop_first().len() && entries.drop_first()[i] == scan_filter(
                entries.drop_first(),
                prefix,
                after,
            )[j] && scan_match(#[trigger] entries.drop_first()[i], prefix, after);
        assert(entries[i0 + 1] == f[j] && scan_match(entries[i0 + 1], prefix, after));
    }
}

/// When every entry already lies after the resume address, resuming changes
/// nothing.
proof fn lemma_scan_filter_after_vacuous(entries: Seq<ScanEntry>, prefix: Seq<u8>, a: Seq<u8>)
    requires
        forall|i: int| 0 <= i < entries.len() ==> lex_lt(a, #[trigger] entries[i].0@),
    ensures
        scan_filter(entries, prefix, Some(a)) =~= scan_filter(entries, prefix, None),
    decreases entries.len(),
{
    if entries.len() > 0 {
        assert(forall|i: int|
            0 <= i < entries.drop_first().len() ==> lex_lt(
                a,
                #[trigger] entries.drop_first()[i].0@,
            ));
        lemma_scan_filter_after_vacuous(entries.drop_first(), prefix, a);
    }
}

/// Paging without overlap or gap: resuming a scan strictly after the address
/// of the `k`-th entry the unresumed scan returns yields exactly the entries
/// after position `k`.
pub proof fn lemma_scan_resume(entries: Seq<ScanEntry>, prefix: Seq<u8>, k: int)
    requires
        sorted_by_address(entries),
        0 <= k < scan_filter(entries, prefix, None).len(),
    ensures
        scan_filter(entries, prefix, Some(scan_filter(entries, prefix, None)[k].0@))
            =~= scan_filter(entries, prefix, None).skip(k + 1),
    decreases entries.len(),
{
    let f = scan_filter(entries, prefix, None);
    let a = f[k].0@;
    if entries.len() == 0 {
    } else {
        let rest = entries.drop_first();
        assert(sorted_by_address(rest)) by {
            assert(forall|i: int, j: int|
                0 <= i < j < rest.len() ==> lex_lt(#[trigger] rest[i].0@, #[trigger] rest[j].0@))
                by {
                assert(forall|i: int, j: int|
                    0 <= i < j < rest.len() ==> rest[i] == entries[i + 1] && rest[j] == entries[j
                        + 1]);
            }
        }
        if scan_match(entries[0], prefix, None) {
            let frest = scan_filter(rest, prefix, None);
            assert(f == seq![entries[0]] + frest);
            if k == 0 {
                assert(a == entries[0].0@);
                lemma_lex_irreflexive(a);
                assert(!scan_match(entries[0], prefix, Some(a)));
                assert(forall|i: int| 0 <= i < rest.len() ==> lex_lt(a, #[trigger] rest[i].0@))
                    by {
                    assert(forall|i: int|
                        0 <= i < rest.len() ==> rest[i] == entries[i + 1] && lex_lt(
                            entries[0].0@,
                            #[trigger] rest[i].0@,
                        ));
                }
                lemma_scan_filter_after_vacuous(rest, prefix, a);
                assert(scan_filter(entries, prefix, Some(a)) == scan_filter(
                    rest,
                    prefix,
                    Some(a),
                ));
                assert(f.skip(1) =~= frest);
            } else {
                assert(f[k] == frest[k - 1]);
                lemma_scan_filter_member(rest, prefix, None, k - 1);
                let i0 = choose|i: int|
                    0 <= i < rest.len() && rest[i] == frest[k - 1] && scan_match(
                        #[trigger] rest[i],
                        prefix,
                        None,
                    );
                assert(rest[i0] == entries[i0 + 1]);
                assert(lex_lt(entries[0].0@, a));
                lemma_lex_asymmetric(entries[0].0@, a);
                assert(!scan_match(entries[0], prefix, Some(a)));
                lemma_scan_resume(rest, prefix, k - 1);
                assert(scan_filter(entries, prefix, Some(a)) == scan_filter(
                    rest,
                    prefix,
                    Some(a),
                ));
                assert(frest.skip(k) =~= f.skip(k + 1));
            }
        } else {
            // The head matches no scan: with a resume address it still
            // matches none, and the filters agree on the tail.
            assert(!scan_match(entries[0], prefix, Some(a)));
            lemma_scan_resume(rest, prefix, k);
        }
    }
}

/// Exec lexicographic comparison.
pub fn lex_lt_exec(a: &Vec<u8>, b: &Vec<u8>) -> (r: bool)
    ensures
        r == lex_lt(a@, b@),
{
    let mut i: usize = 0;
    let alen: usize = a.len();
    let blen: usize = b.len();
    proof {
        assert(a@.skip(0) =~= a@);
        assert(b@.skip(0) =~= b@);
    }
    loop
        invariant
            i <= alen,
            i <= blen,
            alen == a@.len(),
            blen == b@.len(),
            lex_lt(a@, b@) == lex_lt(a@.skip(i as int), b@.skip(i as int)),
        decreases alen - i,
    {
        let ghost sa = a@.skip(i as int);
        let ghost sb = b@.skip(i as int);
        if i >= blen {
            assert(sb.len() == 0);
            return false;
        }
        if i >= alen {
            assert(sa.len() == 0 && sb.len() > 0);
            return true;
        }
        let ca = a[i];
        let cb = b[i];
        assert(sa[0] == ca && sb[0] == cb);
        if ca < cb {
            return true;
        }
        if ca > cb {
            return false;
        }
        proof {
            assert(sa.skip(1) =~= a@.skip(i + 1));
            assert(sb.skip(1) =~= b@.skip(i + 1));
        }
        i = i + 1;
    }
}

/// Exec prefix test.
pub fn is_prefix_exec(p: &Vec<u8>, s: &Vec<u8>) -> (r: bool)
    ensures
        r == is_prefix_of(p@, s@),
{
    let plen: usize = p.len();
    let slen: usize = s.len();
    if plen > slen {
        return false;
    }
    let mut i: usize = 0;
    while i < plen
        invariant
            i <= plen,
            plen == p@.len(),
            plen <= s@.len(),
            forall|j: int| 0 <= j < i ==> p@[j] == s@[j],
        decreases plen - i,
    {
        if p[i] != s[i] {
            assert(s@.take(plen as int)[i as int] != p@[i as int]);
            return false;
        }
        i = i + 1;
    }
    assert(s@.take(plen as int) =~= p@);
    true
}

/// Whether `e` belongs to the scan, executably.
fn scan_match_exec(e: &ScanEntry, prefix: &Vec<u8>, after: Option<&Vec<u8>>) -> (r: bool)
    ensures
        r == scan_match(*e, prefix@, match after {
            Some(a) => Some(a@),
            None => None,
        }),
{
    if !is_prefix_exec(prefix, &e.0) {
        return false;
    }
    match after {
        Some(a) => lex_lt_exec(a, &e.0),
        None => true,
    }
}

/// The first `page_size` entries of the scan over a snapshot in address
/// order: every returned pair is an entry whose address starts with `prefix`
/// and lies strictly after `after`, in address order, with nothing skipped.
pub fn scan_page(
    entries: &Vec<ScanEntry>,
    prefix: &Vec<u8>,
    page_size: usize,
    after: Option<&Vec<u8>>,
) -> (page: Vec<(Vec<u8>, Vec<u8>)>)
    ensures
        ({
            let av = match after {
                Some(a) => Some(a@),
                None => None,
            };
            let f = scan_filter(entries@, prefix@, av);
            &&& page@.len() <= page_size
            &&& page@.len() == if f.len() <= page_size {
                f.len() as int
            } else {
                page_size as int
            }
            &&& forall|j: int|
                0 <= j < page@.len() ==> (#[trigger] page@[j]).0@ == f[j].0@ && page@[j].1@
                    == f[j].1@
        }),
{
    let ghost av: Option<Seq<u8>> = match after {
        Some(a) => Some(a@),
        None => None,
    };
    let ghost f = scan_filter(entries@, prefix@, av);
    let mut page: Vec<(Vec<u8>, Vec<u8>)> = Vec::new();
    let mut i: usize = 0;
    let n: usize = entries.len();
    while i < n
        invariant
            i <= n,
            n == entries@.len(),
            av == (match after {
                Some(a) => Some(a@),
                None => None,
            }),
            f == scan_filter(entries@, prefix@, av),
            page@.len() == scan_filter(entries@.take(i as int), prefix@, av).len(),
            forall|j: int|
                0 <= j < page@.len() ==> (#[trigger] page@[j]).0@ == scan_filter(
                    entries@.take(i as int),
                    prefix@,
                    av,
                )[j].0@ && page@[j].1@ == scan_filter(entries@.take(i as int), prefix@, av)[j].1@,
            page@.len() <= page_size,
        ensures
            i <= n,
            n == entries@.len(),
            page@.len() <= page_size,
            page@.len() == scan_filter(entries@.take(i as int), prefix@, av).len(),
            forall|j: int|
                0 <= j < page@.len() ==> (#[trigger] page@[j]).0@ == scan_filter(
                    entries@.take(i as int),
                    prefix@,
                    av,
                )[j].0@ && page@[j].1@ == scan_filter(entries@.take(i as int), prefix@, av)[j].1@,
            i == n || page@.len() == page_size,
        decreases n - i,
    {
        if page.len() >= page_size {
            break ;
        }
        let ghost fi = scan_filter(entries@.take(i as int), prefix@, av);
        let e = &entries[i];
        proof {
            assert(entries@.take(i + 1) =~= entries@.take(i as int) + seq![entries@[i as int]]);
            lemma_scan_filter_app(entries@.take(i as int), seq![entries@[i as int]], prefix@, av);
            assert(seq![entries@[i as int]].drop_first() =~= Seq::<ScanEntry>::empty());
        }
        if scan_match_exec(e, prefix, after) {
            let addr_copy = copy_bytes(&e.0);
            let val_copy = copy_bytes(&e.1);
            page.push((addr_copy, val_copy));
            proof {
                reveal_with_fuel(scan_filter, 3);
                assert(scan_match(entries@[i as int], prefix@, av));
                assert(scan_filter(seq![entries@[i as int]], prefix@, av) =~= seq![
                    entries@[i as int],
                ]);
                assert(scan_filter(entries@.take(i + 1), prefix@, av) =~= fi + seq![
                    entries@[i as int],
                ]);
            }
        } else {
            proof {
                reveal_with_fuel(scan_filter, 3);
                assert(!scan_match(entries@[i as int], prefix@, av));
                assert(scan_filter(seq![entries@[i as int]], prefix@, av)
                    =~= Seq::<ScanEntry>::empty());
                assert(scan_filter(entries@.take(i + 1), prefix@, av) =~= fi);
            }
        }
        i = i + 1;
    }
    proof {
        if i == n {
            assert(entries@.take(n as int) =~= entries@);
        } else {
            // The page filled: what was taken is a prefix of the whole scan.
            assert(entries@ =~= entries@.take(i as int) + entries@.skip(i as int));
            lemma_scan_filter_app(
                entries@.take(i as int),
                entries@.skip(i as int),
                prefix@,
                av,
            );
        }
    }
    page
}

/// A fresh copy of a byte string.
pub fn copy_bytes(src: &Vec<u8>) -> (r: Vec<u8>)
    ensures
        r@ == src@,
{
    let mut out: Vec<u8> = Vec::new();
    crate::address::push_all(&mut out, src);
    assert(out@ =~= src@);
    out
}

} // verus!
