//! The plan fingerprint: a SHA-256 digest over a length-framed, normalized
//! encoding of a cleanup plan, rendered as lowercase hexadecimal.
//!
//! Rule ids, project roots and the paths of each source selection are
//! sorted before they are framed, and source selections are ordered stably
//! by rule id, so the fingerprint names the plan rather than the order in
//! which the desktop shell listed its parts.

use vstd::prelude::*;
use crate::sorting::{
    KeyedBytes, SortEntry, bytes_le, entries_view, entry_view, insert_by_key, key_determined,
    lemma_map_keeps_multiset,
    lemma_sort_by_key, lemma_sort_by_key_stable, lemma_sort_swap, lemma_sorted_by_key_order, lemma_sorted_unique,
    lemma_with_key_source, sort_by_key, sort_entries_by_key, with_key,
};
use crate::text::{
    hex_lower, is_lower_hex_digit, lemma_hex_lower_injective, lemma_hex_lower_shape, push_hex_lower,
};
use crate::types::{CleanupSourceSelection, CleanupSourceSelectionMode};
use vstd::utf8::encode_utf8;

verus! {

/// The result of SHA-256 on `data`.
pub uninterp spec fn sha256(data: Seq<u8>) -> Seq<u8>;

/// `sha2::Sha256::digest`: the SHA-256 digest of `data`, 32 bytes long.
#[verifier::external_body]
fn sha256_digest(data: &[u8]) -> (r: Vec<u8>)
    ensures
        r@ == sha256(data@),
        r@.len() == 32,
{
    <sha2::Sha256 as sha2::Digest>::digest(data).to_vec()
}

/// The `k` low-order bytes of `n`, least significant first.
pub open spec fn le_bytes(n: nat, k: nat) -> Seq<u8>
    decreases k,
{
    if k == 0 {
        Seq::empty()
    } else {
        seq![(n % 256) as u8] + le_bytes(n / 256, (k - 1) as nat)
    }
}

/// A field as hashed: its length as 8 little-endian bytes, then its bytes.
pub open spec fn frame(v: Seq<u8>) -> Seq<u8> {
    le_bytes(v.len(), 8) + v
}

/// The bytes of the entries, one after the other.
pub open spec fn concat_payloads(s: Seq<KeyedBytes>) -> Seq<u8>
    decreases s.len(),
{
    if s.len() == 0 {
        Seq::empty()
    } else {
        concat_payloads(s.drop_last()) + s.last().1
    }
}

/// A string field keyed by its UTF-8 bytes, with its framing as payload.
pub open spec fn framed_entry(s: Seq<char>) -> KeyedBytes {
    (encode_utf8(s), frame(encode_utf8(s)))
}

/// The framings of `items`, in byte order of the items.
pub open spec fn framed_list(items: Seq<Seq<char>>) -> Seq<u8> {
    concat_payloads(sort_by_key(items.map_values(|s: Seq<char>| framed_entry(s))))
}

/// The bytes that name a selection mode.
pub open spec fn mode_bytes(mode: CleanupSourceSelectionMode) -> Seq<u8> {
    match mode {
        CleanupSourceSelectionMode::Include => encode_utf8("include"@),
        CleanupSourceSelectionMode::Exclude => encode_utf8("exclude"@),
    }
}

/// A source selection keyed by its rule id: rule id, mode, sorted paths.
pub open spec fn selection_entry(sel: CleanupSourceSelection) -> KeyedBytes {
    (
        encode_utf8(sel.rule_id@),
        frame(encode_utf8(sel.rule_id@)) + frame(mode_bytes(sel.mode)) + framed_list(
            sel.paths.deep_view(),
        ),
    )
}

/// The entries of the source selections, in their listed order.
pub open spec fn selection_entries(s: Seq<CleanupSourceSelection>) -> Seq<KeyedBytes> {
    s.map_values(|x: CleanupSourceSelection| selection_entry(x))
}

/// The bytes that name a dry run or an applied run.
pub open spec fn run_mode_bytes(dry_run: bool) -> Seq<u8> {
    if dry_run {
        encode_utf8("dry-run"@)
    } else {
        encode_utf8("apply"@)
    }
}

/// The hashed encoding of a plan.
pub open spec fn plan_message(
    plan_id: Seq<char>,
    rule_ids: Seq<Seq<char>>,
    project_roots: Seq<Seq<char>>,
    source_selections: Seq<CleanupSourceSelection>,
    dry_run: bool,
) -> Seq<u8> {
    frame(encode_utf8(plan_id)) + frame(run_mode_bytes(dry_run)) + framed_list(rule_ids)
        + framed_list(project_roots) + concat_payloads(
        sort_by_key(selection_entries(source_selections)),
    )
}

/// The plan fingerprint: lowercase hex of the SHA-256 of the plan's encoding.
pub open spec fn plan_fingerprint(
    plan_id: Seq<char>,
    rule_ids: Seq<Seq<char>>,
    project_roots: Seq<Seq<char>>,
    source_selections: Seq<CleanupSourceSelection>,
    dry_run: bool,
) -> Seq<char> {
    hex_lower(sha256(plan_message(plan_id, rule_ids, project_roots, source_selections, dry_run)))
}

fn push_bytes(out: &mut Vec<u8>, src: &[u8])
    ensures
        final(out)@ == old(out)@ + src@,
{
    let mut i: usize = 0;
    while i < src.len()
        invariant
            i <= src@.len(),
            out@ == old(out)@ + src@.subrange(0, i as int),
        decreases src.len() - i,
    {
        out.push(src[i]);
        assert(src@.subrange(0, i + 1) =~= src@.subrange(0, i as int).push(src@[i as int]));
        i = i + 1;
    }
    assert(src@.subrange(0, src@.len() as int) =~= src@);
}

fn push_le_bytes(out: &mut Vec<u8>, n: u64)
    ensures
        final(out)@ == old(out)@ + le_bytes(n as nat, 8),
{
    let mut x: u64 = n;
    let mut k: u64 = 8;
    assert(old(out)@ + Seq::<u8>::empty() =~= old(out)@);
    while k > 0
        invariant
            k <= 8,
            out@ + le_bytes(x as nat, k as nat) == old(out)@ + le_bytes(n as nat, 8),
        decreases k,
    {
        let ghost before = out@;
        out.push((x % 256) as u8);
        assert(le_bytes(x as nat, k as nat) == seq![(x % 256) as u8] + le_bytes(
            (x / 256) as nat,
            (k - 1) as nat,
        ));
        assert(out@ + le_bytes((x / 256) as nat, (k - 1) as nat) =~= before + le_bytes(
            x as nat,
            k as nat,
        ));
        x = x / 256;
        k = k - 1;
    }
    assert(out@ + le_bytes(x as nat, 0) =~= out@);
}

fn push_frame(out: &mut Vec<u8>, v: &[u8])
    ensures
        final(out)@ == old(out)@ + frame(v@),
{
    push_le_bytes(out, v.len() as u64);
    push_bytes(out, v);
    assert(final(out)@ =~= old(out)@ + frame(v@));
}

fn frame_of(v: &[u8]) -> (r: Vec<u8>)
    ensures
        r@ == frame(v@),
{
    let mut r: Vec<u8> = Vec::new();
    push_frame(&mut r, v);
    assert(r@ =~= frame(v@));
    r
}

/// Appends the payloads of `entries` to `out`.
fn push_payloads(out: &mut Vec<u8>, entries: &Vec<SortEntry>)
    ensures
        final(out)@ == old(out)@ + concat_payloads(entries_view(entries@)),
{
    let mut i: usize = 0;
    assert(entries_view(entries@).take(0) =~= Seq::<KeyedBytes>::empty());
    while i < entries.len()
        invariant
            i <= entries@.len(),
            out@ == old(out)@ + concat_payloads(entries_view(entries@).take(i as int)),
        decreases entries.len() - i,
    {
        let ghost before = out@;
        push_bytes(out, entries[i].payload.as_slice());
        proof {
            let t = entries_view(entries@).take(i + 1);
            assert(t.drop_last() =~= entries_view(entries@).take(i as int));
            assert(t.last() == entry_view(entries@[i as int]));
            assert(out@ =~= old(out)@ + concat_payloads(t));
        }
        i = i + 1;
    }
    assert(entries_view(entries@).take(entries@.len() as int) =~= entries_view(entries@));
}

/// The framings of `items`, in byte order of the items.
fn framed_list_bytes(items: &Vec<String>) -> (r: Vec<u8>)
    ensures
        r@ == framed_list(items.deep_view()),
{
    let ghost want = items.deep_view().map_values(|s: Seq<char>| framed_entry(s));
    let mut entries: Vec<SortEntry> = Vec::new();
    let mut i: usize = 0;
    while i < items.len()
        invariant
            i <= items@.len(),
            want.len() == items@.len(),
            want == items.deep_view().map_values(|s: Seq<char>| framed_entry(s)),
            entries_view(entries@) == want.take(i as int),
        decreases items.len() - i,
    {
        let key = items[i].as_str().as_bytes_vec();
        let payload = frame_of(key.as_slice());
        let ghost e = SortEntry { key, payload };
        let ghost old_entries = entries@;
        entries.push(SortEntry { key, payload });
        proof {
            assert(items.deep_view()[i as int] == items@[i as int]@);
            assert(entry_view(e) == want[i as int]);
            assert(entries_view(entries@) =~= entries_view(old_entries).push(entry_view(e)));
            assert(want.take(i + 1) =~= want.take(i as int).push(want[i as int]));
            assert(entries_view(entries@) =~= want.take(i + 1));
        }
        i = i + 1;
    }
    assert(want.take(items@.len() as int) =~= want);
    let sorted = sort_entries_by_key(entries);
    let mut r: Vec<u8> = Vec::new();
    push_payloads(&mut r, &sorted);
    assert(r@ =~= framed_list(items.deep_view()));
    r
}

fn mode_bytes_exec(mode: CleanupSourceSelectionMode) -> (r: Vec<u8>)
    ensures
        r@ == mode_bytes(mode),
{
    match mode {
        CleanupSourceSelectionMode::Include => "include".as_bytes_vec(),
        CleanupSourceSelectionMode::Exclude => "exclude".as_bytes_vec(),
    }
}

fn selection_entry_exec(sel: &CleanupSourceSelection) -> (r: SortEntry)
    ensures
        entry_view(r) == selection_entry(*sel),
{
    let key = sel.rule_id.as_str().as_bytes_vec();
    let mut payload: Vec<u8> = Vec::new();
    push_frame(&mut payload, key.as_slice());
    let mode = mode_bytes_exec(sel.mode);
    push_frame(&mut payload, mode.as_slice());
    let paths = framed_list_bytes(&sel.paths);
    push_bytes(&mut payload, paths.as_slice());
    assert(payload@ =~= selection_entry(*sel).1);
    SortEntry { key, payload }
}

/// The plan fingerprint of a cleanup plan.
pub fn plan_hash(
    plan_id: &String,
    rule_ids: &Vec<String>,
    project_roots: &Vec<String>,
    source_selections: &Vec<CleanupSourceSelection>,
    dry_run: bool,
) -> (r: String)
    ensures
        r@ == plan_fingerprint(
            plan_id@,
            rule_ids.deep_view(),
            project_roots.deep_view(),
            source_selections@,
            dry_run,
        ),
        r@.len() == 64,
        forall|i: int| 0 <= i < r@.len() ==> is_lower_hex_digit(#[trigger] r@[i]),
{
    let mut message: Vec<u8> = Vec::new();
    let id_bytes = plan_id.as_str().as_bytes_vec();
    push_frame(&mut message, id_bytes.as_slice());
    let run_mode = if dry_run {
        "dry-run".as_bytes_vec()
    } else {
        "apply".as_bytes_vec()
    };
    push_frame(&mut message, run_mode.as_slice());
    let ids = framed_list_bytes(rule_ids);
    push_bytes(&mut message, ids.as_slice());
    let roots = framed_list_bytes(project_roots);
    push_bytes(&mut message, roots.as_slice());
    let ghost want = selection_entries(source_selections@);
    let mut entries: Vec<SortEntry> = Vec::new();
    let mut i: usize = 0;
    while i < source_selections.len()
        invariant
            i <= source_selections@.len(),
            want == selection_entries(source_selections@),
            entries_view(entries@) == want.take(i as int),
        decreases source_selections.len() - i,
    {
        let e = selection_entry_exec(&source_selections[i]);
        let ghost old_entries = entries@;
        let ghost ev = entry_view(e);
        entries.push(e);
        assert(entries_view(entries@) =~= entries_view(old_entries).push(ev));
        assert(want.take(i + 1) =~= want.take(i as int).push(want[i as int]));
        assert(entries_view(entries@) =~= want.take(i + 1));
        i = i + 1;
    }
    assert(want.take(source_selections@.len() as int) =~= want);
    let sorted = sort_entries_by_key(entries);
    push_payloads(&mut message, &sorted);
    assert(message@ =~= plan_message(
        plan_id@,
        rule_ids.deep_view(),
        project_roots.deep_view(),
        source_selections@,
        dry_run,
    ));
    let digest = sha256_digest(message.as_slice());
    let mut r = String::new();
    push_hex_lower(&mut r, digest.as_slice());
    assert(r@ =~= Seq::<char>::empty() + hex_lower(digest@));
    proof {
        lemma_hex_lower_shape(digest@);
    }
    r
}

proof fn lemma_entries_key_determined(s: Seq<KeyedBytes>, src: Seq<KeyedBytes>)
    requires
        s.to_multiset() == src.to_multiset(),
        forall|i: int, j: int|
            0 <= i < src.len() && 0 <= j < src.len() && (#[trigger] src[i]).0 == (#[trigger] src[j]).0
                ==> src[i] == src[j],
    ensures
        key_determined(s),
{
    broadcast use vstd::seq_lib::group_to_multiset_ensures;

    assert forall|i: int, j: int|
        0 <= i < s.len() && 0 <= j < s.len() && s[i].0 == s[j].0 implies s[i] == s[j] by {
        assert(s.contains(s[i]));
        assert(s.contains(s[j]));
        assert(s.to_multiset().count(s[i]) > 0);
        assert(s.to_multiset().count(s[j]) > 0);
        assert(src.contains(s[i]));
        assert(src.contains(s[j]));
        let a = choose|a: int| 0 <= a < src.len() && src[a] == s[i];
        let b = choose|b: int| 0 <= b < src.len() && src[b] == s[j];
        assert(src[a].0 == src[b].0);
    }
}

proof fn lemma_sorted_same_when_permuted(e1: Seq<KeyedBytes>, e2: Seq<KeyedBytes>)
    requires
        e1.to_multiset() == e2.to_multiset(),
        forall|i: int, j: int|
            0 <= i < e1.len() && 0 <= j < e1.len() && (#[trigger] e1[i]).0 == (#[trigger] e1[j]).0
                ==> e1[i] == e1[j],
    ensures
        sort_by_key(e1) == sort_by_key(e2),
{
    lemma_sort_by_key(e1);
    lemma_sort_by_key(e2);
    lemma_entries_key_determined(sort_by_key(e1), e1);
    lemma_sorted_unique(sort_by_key(e1), sort_by_key(e2));
}

/// Reordering a list of string fields leaves its framing unchanged.
pub proof fn lemma_framed_list_ignores_order(a: Seq<Seq<char>>, b: Seq<Seq<char>>)
    requires
        a.to_multiset() == b.to_multiset(),
    ensures
        framed_list(a) == framed_list(b),
{
    let f = |s: Seq<char>| framed_entry(s);
    let e1 = a.map_values(f);
    let e2 = b.map_values(f);
    lemma_map_keeps_multiset(a, b, f);
    assert forall|i: int, j: int|
        0 <= i < e1.len() && 0 <= j < e1.len() && (#[trigger] e1[i]).0 == (#[trigger] e1[j]).0
            implies e1[i] == e1[j] by {
        assert(e1[i].1 == frame(e1[i].0));
        assert(e1[j].1 == frame(e1[j].0));
    }
    lemma_sorted_same_when_permuted(e1, e2);
}

/// A source selection is hashed the same whatever the order of its paths.
pub proof fn lemma_selection_ignores_path_order(a: CleanupSourceSelection, b: CleanupSourceSelection)
    requires
        a.rule_id@ == b.rule_id@,
        a.mode == b.mode,
        a.paths.deep_view().to_multiset() == b.paths.deep_view().to_multiset(),
    ensures
        selection_entry(a) == selection_entry(b),
{
    lemma_framed_list_ignores_order(a.paths.deep_view(), b.paths.deep_view());
}

/// The selections of `s` that name rule `id`, in their order in `s`.
pub open spec fn selections_for(s: Seq<CleanupSourceSelection>, id: Seq<char>) -> Seq<
    CleanupSourceSelection,
>
    decreases s.len(),
{
    if s.len() == 0 {
        s
    } else if s.last().rule_id@ == id {
        selections_for(s.drop_last(), id).push(s.last())
    } else {
        selections_for(s.drop_last(), id)
    }
}

/// Two selections of the same sources: same rule, same mode, and the same
/// paths in any order.
pub open spec fn same_selection(a: CleanupSourceSelection, b: CleanupSourceSelection) -> bool {
    &&& a.rule_id@ == b.rule_id@
    &&& a.mode == b.mode
    &&& a.paths.deep_view().to_multiset() == b.paths.deep_view().to_multiset()
}

/// `b` lists the selections of `a` in another order, where selections that
/// name the same rule keep their order, each with its paths in any order.
pub open spec fn selections_reordered(
    a: Seq<CleanupSourceSelection>,
    b: Seq<CleanupSourceSelection>,
) -> bool {
    forall|id: Seq<char>|
        {
            &&& (#[trigger] selections_for(a, id)).len() == selections_for(b, id).len()
            &&& forall|i: int|
                0 <= i < selections_for(a, id).len() ==> same_selection(
                    #[trigger] selections_for(a, id)[i],
                    selections_for(b, id)[i],
                )
        }
}

proof fn lemma_selection_entries_for(s: Seq<CleanupSourceSelection>, id: Seq<char>)
    ensures
        with_key(selection_entries(s), encode_utf8(id)) == selection_entries(
            selections_for(s, id),
        ),
    decreases s.len(),
{
    if s.len() == 0 {
        assert(selection_entries(s) =~= Seq::<KeyedBytes>::empty());
        assert(selection_entries(selections_for(s, id)) =~= Seq::<KeyedBytes>::empty());
    } else {
        let d = s.drop_last();
        let l = s.last();
        lemma_selection_entries_for(d, id);
        assert(selection_entries(s).drop_last() =~= selection_entries(d));
        assert(selection_entries(s).last() == selection_entry(l));
        vstd::utf8::encode_utf8_decode_utf8(l.rule_id@);
        vstd::utf8::encode_utf8_decode_utf8(id);
        if l.rule_id@ == id {
            assert(selection_entries(selections_for(s, id)) =~= selection_entries(
                selections_for(d, id),
            ).push(selection_entry(l)));
        } else {
            assert(encode_utf8(l.rule_id@) != encode_utf8(id));
        }
    }
}

proof fn lemma_same_rule_entries(
    a: Seq<CleanupSourceSelection>,
    b: Seq<CleanupSourceSelection>,
    id: Seq<char>,
)
    requires
        selections_reordered(a, b),
    ensures
        with_key(selection_entries(a), encode_utf8(id)) == with_key(
            selection_entries(b),
            encode_utf8(id),
        ),
{
    lemma_selection_entries_for(a, id);
    lemma_selection_entries_for(b, id);
    let sa = selections_for(a, id);
    let sb = selections_for(b, id);
    assert(sa.len() == sb.len());
    assert forall|i: int| 0 <= i < sa.len() implies selection_entry(sa[i]) == selection_entry(
        sb[i],
    ) by {
        assert(same_selection(sa[i], sb[i]));
        lemma_selection_ignores_path_order(sa[i], sb[i]);
    }
    assert(selection_entries(sa) =~= selection_entries(sb));
}

proof fn lemma_selections_with_key_alike(
    a: Seq<CleanupSourceSelection>,
    b: Seq<CleanupSourceSelection>,
    k: Seq<u8>,
)
    requires
        selections_reordered(a, b),
    ensures
        with_key(selection_entries(a), k) == with_key(selection_entries(b), k),
{
    let e1 = selection_entries(a);
    let e2 = selection_entries(b);
    if with_key(e1, k).len() > 0 {
        let m = lemma_with_key_source(e1, k);
        assert(e1[m] == selection_entry(a[m]));
        lemma_same_rule_entries(a, b, a[m].rule_id@);
    } else if with_key(e2, k).len() > 0 {
        let m = lemma_with_key_source(e2, k);
        assert(e2[m] == selection_entry(b[m]));
        lemma_same_rule_entries(a, b, b[m].rule_id@);
    } else {
        assert(with_key(e1, k) =~= with_key(e2, k));
    }
}

/// The plan fingerprint names the plan, not the order of its parts: it is
/// the same when the rule ids, the project roots or the paths of a
/// selection are listed in another order, and when the source selections
/// are, as long as selections that name the same rule keep their order.
pub proof fn lemma_plan_fingerprint_ignores_order(
    plan_id: Seq<char>,
    rule_ids_a: Seq<Seq<char>>,
    rule_ids_b: Seq<Seq<char>>,
    roots_a: Seq<Seq<char>>,
    roots_b: Seq<Seq<char>>,
    selections_a: Seq<CleanupSourceSelection>,
    selections_b: Seq<CleanupSourceSelection>,
    dry_run: bool,
)
    requires
        rule_ids_a.to_multiset() == rule_ids_b.to_multiset(),
        roots_a.to_multiset() == roots_b.to_multiset(),
        selections_reordered(selections_a, selections_b),
    ensures
        plan_fingerprint(plan_id, rule_ids_a, roots_a, selections_a, dry_run) == plan_fingerprint(
            plan_id,
            rule_ids_b,
            roots_b,
            selections_b,
            dry_run,
        ),
{
    lemma_framed_list_ignores_order(rule_ids_a, rule_ids_b);
    lemma_framed_list_ignores_order(roots_a, roots_b);
    let e1 = selection_entries(selections_a);
    let e2 = selection_entries(selections_b);
    assert forall|k: Seq<u8>| #[trigger] with_key(sort_by_key(e1), k) == with_key(
        sort_by_key(e2),
        k,
    ) by {
        lemma_sort_by_key_stable(e1, k);
        lemma_sort_by_key_stable(e2, k);
        lemma_selections_with_key_alike(selections_a, selections_b, k);
    }
    lemma_sort_by_key(e1);
    lemma_sort_by_key(e2);
    lemma_sorted_by_key_order(sort_by_key(e1), sort_by_key(e2));
}

proof fn lemma_le_bytes_len(n: nat, k: nat)
    ensures
        le_bytes(n, k).len() == k,
    decreases k,
{
    if k > 0 {
        lemma_le_bytes_len(n / 256, (k - 1) as nat);
    }
}

proof fn lemma_equal_fingerprints_share_digest(m1: Seq<u8>, m2: Seq<u8>)
    ensures
        hex_lower(sha256(m1)) == hex_lower(sha256(m2)) ==> sha256(m1) == sha256(m2),
{
    if hex_lower(sha256(m1)) == hex_lower(sha256(m2)) {
        lemma_hex_lower_injective(sha256(m1), sha256(m2));
    }
}

/// A dry run and an applied run of the same plan are encoded differently,
/// so their fingerprints agree only where SHA-256 collides.
pub proof fn lemma_fingerprint_tells_run_modes_apart(
    plan_id: Seq<char>,
    rule_ids: Seq<Seq<char>>,
    project_roots: Seq<Seq<char>>,
    source_selections: Seq<CleanupSourceSelection>,
)
    ensures
        plan_message(plan_id, rule_ids, project_roots, source_selections, true) != plan_message(
            plan_id,
            rule_ids,
            project_roots,
            source_selections,
            false,
        ),
        plan_fingerprint(plan_id, rule_ids, project_roots, source_selections, true)
            == plan_fingerprint(plan_id, rule_ids, project_roots, source_selections, false)
            ==> sha256(plan_message(plan_id, rule_ids, project_roots, source_selections, true))
            == sha256(plan_message(plan_id, rule_ids, project_roots, source_selections, false)),
{
    reveal_strlit("dry-run");
    reveal_strlit("apply");
    assert(vstd::utf8::is_ascii_chars("dry-run"@));
    assert(vstd::utf8::is_ascii_chars("apply"@));
    vstd::utf8::is_ascii_chars_encode_utf8("dry-run"@);
    vstd::utf8::is_ascii_chars_encode_utf8("apply"@);
    lemma_le_bytes_len(run_mode_bytes(true).len(), 8);
    lemma_le_bytes_len(run_mode_bytes(false).len(), 8);
    assert(frame(run_mode_bytes(true)).len() == 15);
    assert(frame(run_mode_bytes(false)).len() == 13);
    let tail = framed_list(rule_ids).len() + framed_list(project_roots).len() + concat_payloads(
        sort_by_key(selection_entries(source_selections)),
    ).len();
    let head = frame(encode_utf8(plan_id)).len();
    assert(plan_message(plan_id, rule_ids, project_roots, source_selections, true).len() == head
        + 15 + tail);
    assert(plan_message(plan_id, rule_ids, project_roots, source_selections, false).len() == head
        + 13 + tail);
    lemma_equal_fingerprints_share_digest(
        plan_message(plan_id, rule_ids, project_roots, source_selections, true),
        plan_message(plan_id, rule_ids, project_roots, source_selections, false),
    );
}

/// Plans with different ids are encoded differently, whatever else they
/// share, so their fingerprints agree only where SHA-256 collides.
pub proof fn lemma_fingerprint_tells_plan_ids_apart(
    plan_a: Seq<char>,
    plan_b: Seq<char>,
    rule_ids: Seq<Seq<char>>,
    project_roots: Seq<Seq<char>>,
    source_selections: Seq<CleanupSourceSelection>,
    dry_run: bool,
)
    requires
        plan_a != plan_b,
    ensures
        plan_message(plan_a, rule_ids, project_roots, source_selections, dry_run) != plan_message(
            plan_b,
            rule_ids,
            project_roots,
            source_selections,
            dry_run,
        ),
        plan_fingerprint(plan_a, rule_ids, project_roots, source_selections, dry_run)
            == plan_fingerprint(plan_b, rule_ids, project_roots, source_selections, dry_run)
            ==> sha256(plan_message(plan_a, rule_ids, project_roots, source_selections, dry_run))
            == sha256(plan_message(plan_b, rule_ids, project_roots, source_selections, dry_run)),
{
    let ea = encode_utf8(plan_a);
    let eb = encode_utf8(plan_b);
    vstd::utf8::encode_utf8_decode_utf8(plan_a);
    vstd::utf8::encode_utf8_decode_utf8(plan_b);
    assert(ea != eb);
    let rest = frame(run_mode_bytes(dry_run)) + framed_list(rule_ids) + framed_list(project_roots)
        + concat_payloads(sort_by_key(selection_entries(source_selections)));
    let ma = plan_message(plan_a, rule_ids, project_roots, source_selections, dry_run);
    let mb = plan_message(plan_b, rule_ids, project_roots, source_selections, dry_run);
    assert(ma =~= frame(ea) + rest);
    assert(mb =~= frame(eb) + rest);
    lemma_le_bytes_len(ea.len(), 8);
    lemma_le_bytes_len(eb.len(), 8);
    if ea.len() == eb.len() {
        if forall|i: int| 0 <= i < ea.len() ==> ea[i] == eb[i] {
            assert(ea =~= eb);
        }
        let i = choose|i: int| 0 <= i < ea.len() && ea[i] != eb[i];
        assert(ma[8 + i] == ea[i]);
        assert(mb[8 + i] == eb[i]);
    }
    lemma_equal_fingerprints_share_digest(ma, mb);
}

proof fn lemma_sort_singleton(e: KeyedBytes)
    ensures
        sort_by_key(seq![e]) == seq![e],
{
    assert(seq![e].drop_last() =~= Seq::<KeyedBytes>::empty());
    assert(seq![e].last() == e);
    assert(sort_by_key(Seq::<KeyedBytes>::empty()) == Seq::<KeyedBytes>::empty());
    assert(insert_by_key(Seq::<KeyedBytes>::empty(), e) =~= seq![e]);
}

proof fn lemma_framed_singleton(x: Seq<char>)
    ensures
        framed_list(seq![x]).len() == 8 + encode_utf8(x).len(),
{
    let e = framed_entry(x);
    assert(seq![x].map_values(|s: Seq<char>| framed_entry(s)) =~= seq![e]);
    assert(seq![e].drop_last() =~= Seq::<KeyedBytes>::empty());
    lemma_sort_singleton(e);
    assert(seq![e].last() == e);
    assert(concat_payloads(seq![e]) == concat_payloads(Seq::<KeyedBytes>::empty()) + e.1);
    lemma_le_bytes_len(encode_utf8(x).len(), 8);
}

proof fn lemma_framed_pair(x: Seq<char>, y: Seq<char>)
    ensures
        framed_list(seq![x, y]).len() == 16 + encode_utf8(x).len() + encode_utf8(y).len(),
{
    let ex = framed_entry(x);
    let ey = framed_entry(y);
    assert(seq![x, y].map_values(|s: Seq<char>| framed_entry(s)) =~= seq![ex, ey]);
    assert(seq![ex, ey].drop_last() =~= seq![ex]);
    assert(seq![ex].drop_last() =~= Seq::<KeyedBytes>::empty());
    lemma_sort_singleton(ex);
    assert(seq![ex, ey].last() == ey);
    let sorted = sort_by_key(seq![ex, ey]);
    assert(sorted == insert_by_key(seq![ex], ey));
    assert(seq![ex].last() == ex);
    if bytes_le(ex.0, ey.0) {
        assert(sorted =~= seq![ex, ey]);
    } else {
        assert(insert_by_key(Seq::<KeyedBytes>::empty(), ey) =~= seq![ey]);
        assert(sorted =~= seq![ey, ex]);
    }
    let one = sorted.drop_last();
    assert(one.drop_last() =~= Seq::<KeyedBytes>::empty());
    assert(concat_payloads(one) == concat_payloads(one.drop_last()) + one.last().1);
    assert(concat_payloads(sorted) == concat_payloads(one) + sorted.last().1);
    assert(concat_payloads(sorted).len() == ex.1.len() + ey.1.len());
    lemma_le_bytes_len(encode_utf8(x).len(), 8);
    lemma_le_bytes_len(encode_utf8(y).len(), 8);
}

/// Each rule id is framed by its length, so the rule ids `["ab"]` and
/// `["a", "b"]` encode differently and their fingerprints agree only where
/// SHA-256 collides.
pub proof fn lemma_fingerprint_keeps_rule_id_boundaries(
    plan_id: Seq<char>,
    project_roots: Seq<Seq<char>>,
    source_selections: Seq<CleanupSourceSelection>,
    dry_run: bool,
)
    ensures
        plan_message(plan_id, seq!["ab"@], project_roots, source_selections, dry_run)
            != plan_message(plan_id, seq!["a"@, "b"@], project_roots, source_selections, dry_run),
        plan_fingerprint(plan_id, seq!["ab"@], project_roots, source_selections, dry_run)
            == plan_fingerprint(plan_id, seq!["a"@, "b"@], project_roots, source_selections, dry_run)
            ==> sha256(plan_message(plan_id, seq!["ab"@], project_roots, source_selections, dry_run))
            == sha256(
            plan_message(plan_id, seq!["a"@, "b"@], project_roots, source_selections, dry_run),
        ),
{
    reveal_strlit("ab");
    reveal_strlit("a");
    reveal_strlit("b");
    assert(vstd::utf8::is_ascii_chars("ab"@));
    assert(vstd::utf8::is_ascii_chars("a"@));
    assert(vstd::utf8::is_ascii_chars("b"@));
    vstd::utf8::is_ascii_chars_encode_utf8("ab"@);
    vstd::utf8::is_ascii_chars_encode_utf8("a"@);
    vstd::utf8::is_ascii_chars_encode_utf8("b"@);
    lemma_framed_singleton("ab"@);
    lemma_framed_pair("a"@, "b"@);
    let head = frame(encode_utf8(plan_id)).len() + frame(run_mode_bytes(dry_run)).len();
    let tail = framed_list(project_roots).len() + concat_payloads(
        sort_by_key(selection_entries(source_selections)),
    ).len();
    assert(plan_message(plan_id, seq!["ab"@], project_roots, source_selections, dry_run).len()
        == head + 10 + tail);
    assert(plan_message(plan_id, seq!["a"@, "b"@], project_roots, source_selections, dry_run).len()
        == head + 18 + tail);
    lemma_equal_fingerprints_share_digest(
        plan_message(plan_id, seq!["ab"@], project_roots, source_selections, dry_run),
        plan_message(plan_id, seq!["a"@, "b"@], project_roots, source_selections, dry_run),
    );
}

/// `256` to the power `k`.
pub open spec fn pow256(k: nat) -> nat
    decreases k,
{
    if k == 0 {
        1
    } else {
        256 * pow256((k - 1) as nat)
    }
}

/// The number whose little-endian bytes are `b`.
pub open spec fn le_value(b: Seq<u8>) -> nat
    decreases b.len(),
{
    if b.len() == 0 {
        0
    } else {
        b[0] as nat + 256 * le_value(b.drop_first())
    }
}

proof fn lemma_le_value_le_bytes(n: nat, k: nat)
    requires
        n < pow256(k),
    ensures
        le_value(le_bytes(n, k)) == n,
    decreases k,
{
    if k > 0 {
        let p = pow256((k - 1) as nat);
        assert(n / 256 < p && n % 256 + 256 * (n / 256) == n) by (nonlinear_arith)
            requires
                n < 256 * p,
        ;
        lemma_le_value_le_bytes(n / 256, (k - 1) as nat);
        let b = le_bytes(n, k);
        assert(b.drop_first() =~= le_bytes(n / 256, (k - 1) as nat));
        assert(b[0] == (n % 256) as u8);
    } else {
        assert(n == 0);
    }
}

/// The fields of a sequence of framings, read front to back; reading stops
/// where a length does not fit in what is left.
pub open spec fn unframe(b: Seq<u8>) -> Seq<Seq<u8>>
    decreases b.len(),
{
    if b.len() < 8 {
        Seq::empty()
    } else {
        let n = le_value(b.subrange(0, 8));
        if 8 + n > b.len() {
            Seq::empty()
        } else {
            seq![b.subrange(8, 8 + n as int)] + unframe(b.subrange(8 + n as int, b.len() as int))
        }
    }
}

proof fn lemma_unframe_frame(k: Seq<u8>, rest: Seq<u8>)
    requires
        k.len() < pow256(8),
    ensures
        unframe(frame(k) + rest) == seq![k] + unframe(rest),
{
    let b = frame(k) + rest;
    lemma_le_bytes_len(k.len(), 8);
    lemma_le_value_le_bytes(k.len(), 8);
    assert(b.subrange(0, 8) =~= le_bytes(k.len(), 8));
    assert(b.subrange(8, 8 + k.len() as int) =~= k);
    assert(b.subrange(8 + k.len() as int, b.len() as int) =~= rest);
}

proof fn lemma_concat_payloads_front(s: Seq<KeyedBytes>)
    requires
        s.len() > 0,
    ensures
        concat_payloads(s) == s[0].1 + concat_payloads(s.drop_first()),
    decreases s.len(),
{
    if s.len() == 1 {
        assert(s.drop_last() =~= Seq::<KeyedBytes>::empty());
        assert(s.drop_first() =~= Seq::<KeyedBytes>::empty());
        assert(concat_payloads(s) =~= s[0].1 + concat_payloads(s.drop_first()));
    } else {
        lemma_concat_payloads_front(s.drop_last());
        assert(s.drop_last().drop_first() =~= s.drop_first().drop_last());
        assert(s.drop_first().last() == s.last());
        assert(concat_payloads(s) =~= s[0].1 + concat_payloads(s.drop_first()));
    }
}

/// Each entry's payload is the framing of its key, and every key is shorter
/// than `2^64` bytes.
pub open spec fn well_framed(s: Seq<KeyedBytes>) -> bool {
    forall|i: int|
        0 <= i < s.len() ==> (#[trigger] s[i]).1 == frame(s[i].0) && s[i].0.len() < pow256(8)
}

proof fn lemma_unframe_concat(s: Seq<KeyedBytes>)
    requires
        well_framed(s),
    ensures
        unframe(concat_payloads(s)) == s.map_values(|e: KeyedBytes| e.0),
    decreases s.len(),
{
    if s.len() == 0 {
        assert(s.map_values(|e: KeyedBytes| e.0) =~= Seq::<Seq<u8>>::empty());
    } else {
        let t = s.drop_first();
        assert forall|i: int| 0 <= i < t.len() implies (#[trigger] t[i]).1 == frame(t[i].0)
            && t[i].0.len() < pow256(8) by {
            assert(t[i] == s[i + 1]);
        }
        lemma_unframe_concat(t);
        lemma_concat_payloads_front(s);
        assert(s[0].1 == frame(s[0].0));
        lemma_unframe_frame(s[0].0, concat_payloads(t));
        assert(s.map_values(|e: KeyedBytes| e.0) =~= seq![s[0].0] + t.map_values(
            |e: KeyedBytes| e.0,
        ));
    }
}

/// The UTF-8 encoding of every item of `items` is shorter than `2^64` bytes,
/// as for any string held in memory.
pub open spec fn encodings_fit(items: Seq<Seq<char>>) -> bool {
    forall|i: int| 0 <= i < items.len() ==> encode_utf8(#[trigger] items[i]).len() < pow256(8)
}

/// The framing of a list determines the list up to order: lists framed
/// alike hold the same items, each as often.
pub proof fn lemma_framed_list_determines_items(a: Seq<Seq<char>>, b: Seq<Seq<char>>)
    requires
        encodings_fit(a),
        encodings_fit(b),
        framed_list(a) == framed_list(b),
    ensures
        a.to_multiset() == b.to_multiset(),
{
    broadcast use vstd::seq_lib::group_to_multiset_ensures;

    let f = |s: Seq<char>| framed_entry(s);
    let ea = a.map_values(f);
    let eb = b.map_values(f);
    let sa = sort_by_key(ea);
    let sb = sort_by_key(eb);
    lemma_sort_by_key(ea);
    lemma_sort_by_key(eb);
    assert forall|i: int| 0 <= i < sa.len() implies (#[trigger] sa[i]).1 == frame(sa[i].0)
        && sa[i].0.len() < pow256(8) by {
        assert(sa.contains(sa[i]));
        assert(sa.to_multiset().count(sa[i]) > 0);
        assert(ea.contains(sa[i]));
        let j = choose|j: int| 0 <= j < ea.len() && ea[j] == sa[i];
        assert(ea[j] == framed_entry(a[j]));
    }
    assert forall|i: int| 0 <= i < sb.len() implies (#[trigger] sb[i]).1 == frame(sb[i].0)
        && sb[i].0.len() < pow256(8) by {
        assert(sb.contains(sb[i]));
        assert(sb.to_multiset().count(sb[i]) > 0);
        assert(eb.contains(sb[i]));
        let j = choose|j: int| 0 <= j < eb.len() && eb[j] == sb[i];
        assert(eb[j] == framed_entry(b[j]));
    }
    lemma_unframe_concat(sa);
    lemma_unframe_concat(sb);
    let ka = sa.map_values(|e: KeyedBytes| e.0);
    let kb = sb.map_values(|e: KeyedBytes| e.0);
    assert(ka == kb);
    assert(sa.len() == ka.len() && sb.len() == kb.len());
    assert forall|i: int| 0 <= i < sa.len() implies sa[i] == sb[i] by {
        assert(ka[i] == kb[i]);
    }
    assert(sa =~= sb);
    let g = |e: KeyedBytes| vstd::utf8::decode_utf8(e.0);
    lemma_map_keeps_multiset(ea, eb, g);
    assert forall|i: int| 0 <= i < a.len() implies #[trigger] ea.map_values(g)[i] == a[i] by {
        vstd::utf8::encode_utf8_decode_utf8(a[i]);
    }
    assert forall|i: int| 0 <= i < b.len() implies #[trigger] eb.map_values(g)[i] == b[i] by {
        vstd::utf8::encode_utf8_decode_utf8(b[i]);
    }
    assert(ea.map_values(g) =~= a);
    assert(eb.map_values(g) =~= b);
}

/// The encoding of a source selection determines its paths, whatever its
/// mode: two selections of the same rule and mode whose paths differ (as
/// lists taken in any order) are encoded differently, and so are two plans
/// that differ only in such a selection.
pub proof fn lemma_selection_encoding_determines_paths(
    x: CleanupSourceSelection,
    y: CleanupSourceSelection,
    plan_id: Seq<char>,
    rule_ids: Seq<Seq<char>>,
    project_roots: Seq<Seq<char>>,
    dry_run: bool,
)
    requires
        x.rule_id@ == y.rule_id@,
        x.mode == y.mode,
        encodings_fit(x.paths.deep_view()),
        encodings_fit(y.paths.deep_view()),
        x.paths.deep_view().to_multiset() != y.paths.deep_view().to_multiset(),
    ensures
        selection_entry(x) != selection_entry(y),
        plan_message(plan_id, rule_ids, project_roots, seq![x], dry_run) != plan_message(
            plan_id,
            rule_ids,
            project_roots,
            seq![y],
            dry_run,
        ),
{
    let head = frame(encode_utf8(x.rule_id@)) + frame(mode_bytes(x.mode));
    let px = framed_list(x.paths.deep_view());
    let py = framed_list(y.paths.deep_view());
    assert(selection_entry(x).1 == head + px);
    assert(selection_entry(y).1 == head + py);
    if px == py {
        lemma_framed_list_determines_items(x.paths.deep_view(), y.paths.deep_view());
    }
    if selection_entry(x).1 == selection_entry(y).1 {
        assert((head + px).subrange(head.len() as int, (head + px).len() as int) =~= px);
        assert((head + py).subrange(head.len() as int, (head + py).len() as int) =~= py);
    }
    let ex = selection_entry(x);
    let ey = selection_entry(y);
    assert(selection_entries(seq![x]) =~= seq![ex]);
    assert(selection_entries(seq![y]) =~= seq![ey]);
    lemma_sort_singleton(ex);
    lemma_sort_singleton(ey);
    assert(seq![ex].drop_last() =~= Seq::<KeyedBytes>::empty());
    assert(seq![ey].drop_last() =~= Seq::<KeyedBytes>::empty());
    assert(seq![ex].last() == ex);
    assert(seq![ey].last() == ey);
    assert(concat_payloads(Seq::<KeyedBytes>::empty()) =~= Seq::<u8>::empty());
    assert(concat_payloads(seq![ex]) =~= ex.1);
    assert(concat_payloads(seq![ey]) =~= ey.1);
    let pre = frame(encode_utf8(plan_id)) + frame(run_mode_bytes(dry_run)) + framed_list(rule_ids)
        + framed_list(project_roots);
    let mx = plan_message(plan_id, rule_ids, project_roots, seq![x], dry_run);
    let my = plan_message(plan_id, rule_ids, project_roots, seq![y], dry_run);
    assert(mx =~= pre + ex.1);
    assert(my =~= pre + ey.1);
    if mx == my {
        assert(mx.subrange(pre.len() as int, mx.len() as int) =~= ex.1);
        assert(my.subrange(pre.len() as int, my.len() as int) =~= ey.1);
    }
}

proof fn lemma_concat_payloads_add(a: Seq<KeyedBytes>, b: Seq<KeyedBytes>)
    ensures
        concat_payloads(a + b) == concat_payloads(a) + concat_payloads(b),
    decreases b.len(),
{
    if b.len() == 0 {
        assert(a + b =~= a);
        assert(concat_payloads(a) + concat_payloads(b) =~= concat_payloads(a));
    } else {
        lemma_concat_payloads_add(a, b.drop_last());
        assert((a + b).drop_last() =~= a + b.drop_last());
        assert((a + b).last() == b.last());
        assert(concat_payloads(a + b) =~= concat_payloads(a) + concat_payloads(b));
    }
}

proof fn lemma_concat_payloads_swap(s: Seq<KeyedBytes>, j: int, y: KeyedBytes)
    requires
        0 <= j < s.len(),
        concat_payloads(s.update(j, y)) == concat_payloads(s),
    ensures
        s[j].1 == y.1,
{
    let pre = s.take(j);
    let post = s.skip(j + 1);
    let t = s.update(j, y);
    assert(s =~= pre + seq![s[j]] + post);
    assert(t =~= pre + seq![y] + post);
    lemma_concat_payloads_add(pre + seq![s[j]], post);
    lemma_concat_payloads_add(pre, seq![s[j]]);
    lemma_concat_payloads_add(pre + seq![y], post);
    lemma_concat_payloads_add(pre, seq![y]);
    assert(seq![s[j]].drop_last() =~= Seq::<KeyedBytes>::empty());
    assert(seq![y].drop_last() =~= Seq::<KeyedBytes>::empty());
    assert(seq![s[j]].last() == s[j]);
    assert(seq![y].last() == y);
    assert(concat_payloads(Seq::<KeyedBytes>::empty()) =~= Seq::<u8>::empty());
    assert(concat_payloads(seq![s[j]]) =~= s[j].1);
    assert(concat_payloads(seq![y]) =~= y.1);
    let cp = concat_payloads(pre);
    let cq = concat_payloads(post);
    let m = concat_payloads(s);
    assert(m =~= cp + s[j].1 + cq);
    assert(concat_payloads(t) =~= cp + y.1 + cq);
    assert(concat_payloads(t) == m);
    assert((cp + s[j].1 + cq).len() == cp.len() + s[j].1.len() + cq.len());
    assert((cp + y.1 + cq).len() == cp.len() + y.1.len() + cq.len());
    assert(s[j].1.len() == y.1.len());
    assert(m.subrange(cp.len() as int, (cp.len() + s[j].1.len()) as int) =~= s[j].1);
    assert(concat_payloads(t).subrange(cp.len() as int, (cp.len() + y.1.len()) as int) =~= y.1);
}

/// The plan encoding determines the paths of each source selection, for
/// exclusions as for inclusions: two plans that differ only in the paths of
/// one selection (as lists taken in any order) are encoded differently, so
/// their fingerprints agree only where SHA-256 collides.
pub proof fn lemma_plan_message_determines_selection_paths(
    plan_id: Seq<char>,
    rule_ids: Seq<Seq<char>>,
    project_roots: Seq<Seq<char>>,
    selections: Seq<CleanupSourceSelection>,
    i: int,
    x: CleanupSourceSelection,
    y: CleanupSourceSelection,
    dry_run: bool,
)
    requires
        0 <= i < selections.len(),
        x.rule_id@ == y.rule_id@,
        x.mode == y.mode,
        encodings_fit(x.paths.deep_view()),
        encodings_fit(y.paths.deep_view()),
        x.paths.deep_view().to_multiset() != y.paths.deep_view().to_multiset(),
    ensures
        plan_message(plan_id, rule_ids, project_roots, selections.update(i, x), dry_run)
            != plan_message(plan_id, rule_ids, project_roots, selections.update(i, y), dry_run),
        plan_fingerprint(plan_id, rule_ids, project_roots, selections.update(i, x), dry_run)
            == plan_fingerprint(plan_id, rule_ids, project_roots, selections.update(i, y), dry_run)
            ==> sha256(
            plan_message(plan_id, rule_ids, project_roots, selections.update(i, x), dry_run),
        ) == sha256(
            plan_message(plan_id, rule_ids, project_roots, selections.update(i, y), dry_run),
        ),
{
    lemma_selection_encoding_determines_paths(x, y, plan_id, rule_ids, project_roots, dry_run);
    let ex = selection_entry(x);
    let ey = selection_entry(y);
    assert(ex.1 != ey.1);
    let e = selection_entries(selections.update(i, x));
    assert(selection_entries(selections.update(i, y)) =~= e.update(i, ey));
    assert(e[i] == ex);
    let j = lemma_sort_swap(e, i, ey);
    let sx = sort_by_key(e);
    if concat_payloads(sx.update(j, ey)) == concat_payloads(sx) {
        lemma_concat_payloads_swap(sx, j, ey);
    }
    let pre = frame(encode_utf8(plan_id)) + frame(run_mode_bytes(dry_run)) + framed_list(rule_ids)
        + framed_list(project_roots);
    let mx = plan_message(plan_id, rule_ids, project_roots, selections.update(i, x), dry_run);
    let my = plan_message(plan_id, rule_ids, project_roots, selections.update(i, y), dry_run);
    assert(mx =~= pre + concat_payloads(sx));
    assert(my =~= pre + concat_payloads(sx.update(j, ey)));
    if mx == my {
        assert(mx.subrange(pre.len() as int, mx.len() as int) =~= concat_payloads(sx));
        assert(my.subrange(pre.len() as int, my.len() as int) =~= concat_payloads(sx.update(j, ey)));
    }
    lemma_equal_fingerprints_share_digest(mx, my);
}

} // verus!
