//! The duplicate detector. Phase one collects every regular file above
//! the size floor from the snapshot; phase two digests each candidate's
//! content (the caller supplies the bytes) and groups by digest and
//! size: two files are duplicates exactly when both agree. Every group
//! member but one lexicographically least canonical copy is reported.

use vstd::prelude::*;

use crate::human::{format_size_binary, human_size_of};
use crate::paths::{lemma_lex_asym, lemma_lex_irrefl, lex_lt, str_lex_lt};
use crate::snapshot::{in_scope, in_scope_exec, EntryView, FsEntry};
use crate::types::{CleanCategory, CleanableItem, FileHash, ItemView, RiskLevel};

verus! {

/// The SHA-256 digest of a byte sequence.
pub uninterp spec fn sha256_of(data: Seq<u8>) -> Seq<u8>;

/// Relies on sha2::Sha256: the digest is 32 bytes and depends on the
/// input bytes alone.
#[verifier::external_body]
fn sha256_digest(data: &Vec<u8>) -> (r: Vec<u8>)
    ensures
        r@ == sha256_of(data@),
        r@.len() == 32,
{
    let d = <sha2::Sha256 as sha2::Digest>::digest(data.as_slice());
    d.to_vec()
}

/// The lower-case hex character of one value below sixteen.
pub open spec fn hex_char_of(n: u8) -> char {
    if n == 0 {
        '0'
    } else if n == 1 {
        '1'
    } else if n == 2 {
        '2'
    } else if n == 3 {
        '3'
    } else if n == 4 {
        '4'
    } else if n == 5 {
        '5'
    } else if n == 6 {
        '6'
    } else if n == 7 {
        '7'
    } else if n == 8 {
        '8'
    } else if n == 9 {
        '9'
    } else if n == 10 {
        'a'
    } else if n == 11 {
        'b'
    } else if n == 12 {
        'c'
    } else if n == 13 {
        'd'
    } else if n == 14 {
        'e'
    } else {
        'f'
    }
}

/// Lower-case hex encoding, two characters per byte.
pub open spec fn hex_of(data: Seq<u8>) -> Seq<char>
    decreases data.len(),
{
    if data.len() == 0 {
        Seq::empty()
    } else {
        hex_of(data.drop_last()) + seq![
            hex_char_of((data.last() / 16) as u8),
            hex_char_of((data.last() % 16) as u8),
        ]
    }
}

/// The digest string the detector keys on: the SHA-256 of the content,
/// in lower-case hex.
pub open spec fn sha256_hex_of(data: Seq<u8>) -> Seq<char> {
    hex_of(sha256_of(data))
}

fn hex_digit_str(n: u8) -> (r: &'static str)
    requires
        n < 16,
    ensures
        r@ == seq![hex_char_of(n)],
{
    let r: &'static str = match n {
        0 => "0",
        1 => "1",
        2 => "2",
        3 => "3",
        4 => "4",
        5 => "5",
        6 => "6",
        7 => "7",
        8 => "8",
        9 => "9",
        10 => "a",
        11 => "b",
        12 => "c",
        13 => "d",
        14 => "e",
        _ => "f",
    };
    proof {
        reveal_strlit("0");
        reveal_strlit("1");
        reveal_strlit("2");
        reveal_strlit("3");
        reveal_strlit("4");
        reveal_strlit("5");
        reveal_strlit("6");
        reveal_strlit("7");
        reveal_strlit("8");
        reveal_strlit("9");
        reveal_strlit("a");
        reveal_strlit("b");
        reveal_strlit("c");
        reveal_strlit("d");
        reveal_strlit("e");
        reveal_strlit("f");
        assert(r@ =~= seq![hex_char_of(n)]);
    }
    r
}

fn to_hex(data: &Vec<u8>) -> (r: String)
    ensures
        r@ == hex_of(data@),
{
    let n = data.len();
    let mut out = String::new();
    let mut i: usize = 0;
    while i < n
        invariant
            n == data@.len(),
            0 <= i <= n,
            out@ == hex_of(data@.take(i as int)),
        decreases n - i,
    {
        let b = data[i];
        proof {
            assert(data@.take(i + 1).drop_last() =~= data@.take(i as int));
            assert(data@.take(i + 1).last() == data@[i as int]);
        }
        out.append(hex_digit_str(b / 16));
        out.append(hex_digit_str(b % 16));
        proof {
            assert(out@ =~= hex_of(data@.take(i + 1)));
        }
        i = i + 1;
    }
    proof {
        assert(data@.take(n as int) =~= data@);
    }
    out
}

/// Digests a candidate's content: the SHA-256 of the bytes as a
/// lower-case hex string, exactly as the grouping key records it.
pub fn hash_bytes(data: &Vec<u8>) -> (r: String)
    ensures
        r@ == sha256_hex_of(data@),
{
    let d = sha256_digest(data);
    to_hex(&d)
}

/// One file that phase one selected for hashing.
#[derive(Clone, Debug)]
pub struct DupCandidate {
    pub path: String,
    pub size: u64,
}

/// The mathematical value of a candidate.
pub ghost struct CandView {
    pub path: Seq<char>,
    pub size: u64,
}

impl View for DupCandidate {
    type V = CandView;

    open spec fn view(&self) -> CandView {
        CandView { path: self.path@, size: self.size }
    }
}

impl DeepView for DupCandidate {
    type V = CandView;

    open spec fn deep_view(&self) -> CandView {
        self.view()
    }
}

/// Phase one keeps a regular file the depth-bounded walk reaches whose
/// size exceeds one MiB: smaller files are never worth the hashing.
pub open spec fn cand_hit(e: EntryView, root: Seq<char>, depth: int) -> bool {
    !e.is_dir && in_scope(e.path, root, depth) && e.size > 0x100000
}

pub open spec fn cand_row(entries: Seq<EntryView>, root: Seq<char>, depth: int) -> Seq<CandView>
    decreases entries.len(),
{
    if entries.len() == 0 {
        Seq::empty()
    } else {
        cand_row(entries.drop_last(), root, depth) + if cand_hit(entries.last(), root, depth) {
            seq![CandView { path: entries.last().path, size: entries.last().size }]
        } else {
            Seq::empty()
        }
    }
}

/// Every candidate of every root, in walk order.
pub open spec fn spec_dup_candidates(roots: Seq<Seq<char>>, depth: int, snap: Seq<EntryView>) -> Seq<
    CandView,
>
    decreases roots.len(),
{
    if roots.len() == 0 {
        Seq::empty()
    } else {
        spec_dup_candidates(roots.drop_last(), depth, snap) + cand_row(snap, roots.last(), depth)
    }
}

/// Phase one of the duplicate sweep: every regular file of the
/// snapshot that the depth-bounded walk of some root reaches and whose
/// size exceeds one MiB.
pub fn duplicate_candidates(paths: &Vec<String>, max_depth: usize, snap: &Vec<FsEntry>) -> (r: Vec<
    DupCandidate,
>)
    ensures
        r.deep_view() == spec_dup_candidates(paths.deep_view(), max_depth as int, snap.deep_view()),
{
    let ghost roots_dv = paths.deep_view();
    let ghost snap_dv = snap.deep_view();
    let mut out: Vec<DupCandidate> = Vec::new();
    let n_roots = paths.len();
    let n_snap = snap.len();
    let mut ri: usize = 0;
    proof {
        assert(out.deep_view() =~= spec_dup_candidates(roots_dv.take(0), max_depth as int, snap_dv));
    }
    while ri < n_roots
        invariant
            n_roots == paths@.len(),
            n_snap == snap@.len(),
            roots_dv == paths.deep_view(),
            snap_dv == snap.deep_view(),
            0 <= ri <= n_roots,
            out.deep_view() == spec_dup_candidates(
                roots_dv.take(ri as int),
                max_depth as int,
                snap_dv,
            ),
        decreases n_roots - ri,
    {
        let root = &paths[ri];
        proof {
            assert(root@ == roots_dv[ri as int]);
        }
        let mut ei: usize = 0;
        while ei < n_snap
            invariant
                n_snap == snap@.len(),
                snap_dv == snap.deep_view(),
                0 <= ei <= n_snap,
                root@ == roots_dv[ri as int],
                out.deep_view() == spec_dup_candidates(
                    roots_dv.take(ri as int),
                    max_depth as int,
                    snap_dv,
                ) + cand_row(snap_dv.take(ei as int), root@, max_depth as int),
            decreases n_snap - ei,
        {
            let ghost out0 = out.deep_view();
            let e = &snap[ei];
            proof {
                assert(e@ == snap_dv[ei as int]);
                assert(snap_dv.take(ei + 1).drop_last() =~= snap_dv.take(ei as int));
                assert(snap_dv.take(ei + 1).last() == snap_dv[ei as int]);
            }
            if !e.is_dir && e.size > 0x100000 && in_scope_exec(
                e.path.as_str(),
                root.as_str(),
                max_depth,
            ) {
                let c = DupCandidate { path: e.path.clone(), size: e.size };
                proof {
                    assert(c@ == (CandView { path: e@.path, size: e@.size }));
                }
                out.push(c);
                proof {
                    assert(out.deep_view() =~= out0.push(
                        CandView { path: e@.path, size: e@.size },
                    ));
                }
            }
            proof {
                assert(out.deep_view() =~= spec_dup_candidates(
                    roots_dv.take(ri as int),
                    max_depth as int,
                    snap_dv,
                ) + cand_row(snap_dv.take(ei + 1), root@, max_depth as int));
            }
            ei = ei + 1;
        }
        proof {
            assert(snap_dv.take(n_snap as int) =~= snap_dv);
            assert(roots_dv.take(ri + 1).drop_last() =~= roots_dv.take(ri as int));
            assert(roots_dv.take(ri + 1).last() == roots_dv[ri as int]);
            assert(out.deep_view() =~= spec_dup_candidates(
                roots_dv.take(ri + 1),
                max_depth as int,
                snap_dv,
            ));
        }
        ri = ri + 1;
    }
    proof {
        assert(roots_dv.take(n_roots as int) =~= roots_dv);
    }
    out
}

/// One hashed candidate: the path and the grouping key.
#[derive(Clone, Debug)]
pub struct HashedFile {
    pub path: String,
    pub hash: FileHash,
}

/// The mathematical value of a hashed candidate.
pub ghost struct HashedView {
    pub path: Seq<char>,
    pub digest: Seq<char>,
    pub size: u64,
}

impl View for HashedFile {
    type V = HashedView;

    open spec fn view(&self) -> HashedView {
        HashedView { path: self.path@, digest: self.hash.hash@, size: self.hash.size }
    }
}

impl DeepView for HashedFile {
    type V = HashedView;

    open spec fn deep_view(&self) -> HashedView {
        self.view()
    }
}

/// Two hashed candidates fall in one group exactly when digest and
/// size both agree.
pub open spec fn hkey_eq(a: HashedView, b: HashedView) -> bool {
    a.digest == b.digest && a.size == b.size
}

/// The lexicographically least path among the candidates before `k`
/// that share candidate `i`'s group, and candidate `i`'s own path: the
/// canonical copy of the group once `k` reaches the end.
pub open spec fn min_path_upto(s: Seq<HashedView>, i: int, k: int) -> Seq<char>
    decreases k,
{
    if k <= 0 {
        s[i].path
    } else if hkey_eq(s[k - 1], s[i]) && lex_lt(s[k - 1].path, min_path_upto(s, i, k - 1)) {
        s[k - 1].path
    } else {
        min_path_upto(s, i, k - 1)
    }
}

/// Candidate `i` is reported exactly when some group member's path
/// precedes its own: every copy but the canonical one.
pub open spec fn emits_dup(s: Seq<HashedView>, i: int) -> bool {
    lex_lt(min_path_upto(s, i, s.len() as int), s[i].path)
}

/// The finding reported for candidate `i`: a duplicate of the group's
/// canonical copy.
pub open spec fn dup_item_of(s: Seq<HashedView>, i: int) -> ItemView {
    ItemView {
        path: s[i].path,
        size: s[i].size,
        category: CleanCategory::DuplicateFiles,
        risk_level: RiskLevel::Risky,
        description: "Duplicate of "@ + min_path_upto(s, i, s.len() as int) + " ("@
            + human_size_of(s[i].size) + ")"@,
    }
}

pub open spec fn dup_findings_upto(s: Seq<HashedView>, k: int) -> Seq<ItemView>
    decreases k,
{
    if k <= 0 {
        Seq::empty()
    } else {
        dup_findings_upto(s, k - 1) + if emits_dup(s, k - 1) {
            seq![dup_item_of(s, k - 1)]
        } else {
            Seq::empty()
        }
    }
}

/// Phase two's output: one Risky finding for every candidate whose
/// group holds an earlier canonical copy.
pub open spec fn spec_find_duplicates(s: Seq<HashedView>) -> Seq<ItemView> {
    dup_findings_upto(s, s.len() as int)
}

/// Phase two of the duplicate sweep: groups the hashed candidates by
/// (digest, size) and reports every group member except the
/// lexicographically least path, which stands as the original.
pub fn find_duplicates(hashed: &Vec<HashedFile>) -> (r: Vec<CleanableItem>)
    ensures
        r.deep_view() == spec_find_duplicates(hashed.deep_view()),
{
    let ghost dv = hashed.deep_view();
    let n = hashed.len();
    let mut out: Vec<CleanableItem> = Vec::new();
    let mut i: usize = 0;
    proof {
        assert(out.deep_view() =~= dup_findings_upto(dv, 0));
    }
    while i < n
        invariant
            n == hashed@.len(),
            dv == hashed.deep_view(),
            dv.len() == n,
            0 <= i <= n,
            out.deep_view() == dup_findings_upto(dv, i as int),
        decreases n - i,
    {
        let ghost out0 = out.deep_view();
        proof {
            assert(hashed@[i as int]@ == dv[i as int]);
        }
        let mut best = hashed[i].path.clone();
        let mut k: usize = 0;
        while k < n
            invariant
                n == hashed@.len(),
                dv == hashed.deep_view(),
                dv.len() == n,
                0 <= k <= n,
                0 <= i < n,
                best@ == min_path_upto(dv, i as int, k as int),
            decreases n - k,
        {
            proof {
                assert(hashed@[k as int]@ == dv[k as int]);
            }
            if hashed[k].hash.same_key(&hashed[i].hash) && str_lex_lt(
                hashed[k].path.as_str(),
                best.as_str(),
            ) {
                best = hashed[k].path.clone();
            }
            k = k + 1;
        }
        if str_lex_lt(best.as_str(), hashed[i].path.as_str()) {
            let sz = hashed[i].hash.size;
            let desc = "Duplicate of ".to_owned().concat(best.as_str()).concat(" (").concat(
                format_size_binary(sz).as_str(),
            ).concat(")");
            let item = CleanableItem {
                path: hashed[i].path.clone(),
                size: sz,
                category: CleanCategory::DuplicateFiles,
                risk_level: RiskLevel::Risky,
                description: desc,
            };
            proof {
                assert(item@.description =~= dup_item_of(dv, i as int).description);
                assert(item@ == dup_item_of(dv, i as int));
            }
            out.push(item);
            proof {
                assert(out.deep_view() =~= out0.push(dup_item_of(dv, i as int)));
                assert(out.deep_view() =~= dup_findings_upto(dv, i + 1));
            }
        } else {
            proof {
                assert(out.deep_view() =~= dup_findings_upto(dv, i + 1));
            }
        }
        i = i + 1;
    }
    out
}

/// Duplicate reporting is symmetric-free and exclusive: of two files
/// in one group, only the lexicographically later one is reported, as
/// a duplicate of the earlier; a file in a group of its own is never
/// reported.
pub proof fn lemma_duplicate_exclusivity(s: Seq<HashedView>)
    requires
        s.len() == 3,
        hkey_eq(s[0], s[1]),
        lex_lt(s[0].path, s[1].path),
        !hkey_eq(s[2], s[0]),
        !hkey_eq(s[2], s[1]),
    ensures
        spec_find_duplicates(s) =~= seq![dup_item_of(s, 1)],
        dup_item_of(s, 1).path == s[1].path,
        dup_item_of(s, 1).description == "Duplicate of "@ + s[0].path + " ("@ + human_size_of(
            s[1].size,
        ) + ")"@,
{
    lemma_lex_irrefl(s[0].path);
    lemma_lex_irrefl(s[1].path);
    lemma_lex_irrefl(s[2].path);
    lemma_lex_asym(s[0].path, s[1].path);
    assert(min_path_upto(s, 0, 0) == s[0].path);
    assert(min_path_upto(s, 0, 1) == s[0].path);
    assert(min_path_upto(s, 0, 2) == s[0].path);
    assert(min_path_upto(s, 0, 3) == s[0].path);
    assert(!emits_dup(s, 0));
    assert(min_path_upto(s, 1, 0) == s[1].path);
    assert(min_path_upto(s, 1, 1) == s[0].path);
    assert(min_path_upto(s, 1, 2) == s[0].path);
    assert(min_path_upto(s, 1, 3) == s[0].path);
    assert(emits_dup(s, 1));
    assert(min_path_upto(s, 2, 0) == s[2].path);
    assert(min_path_upto(s, 2, 1) == s[2].path);
    assert(min_path_upto(s, 2, 2) == s[2].path);
    assert(min_path_upto(s, 2, 3) == s[2].path);
    assert(!emits_dup(s, 2));
    assert(dup_findings_upto(s, 0) =~= Seq::<ItemView>::empty());
    assert(dup_findings_upto(s, 1) =~= Seq::<ItemView>::empty());
    assert(dup_findings_upto(s, 2) =~= seq![dup_item_of(s, 1)]);
    assert(dup_findings_upto(s, 3) =~= seq![dup_item_of(s, 1)]);
}

} // verus!
