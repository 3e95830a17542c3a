//! The configuration of the allow-list: a comma-separated list of entries
//! `<namespace>/<claim name>`.

use crate::patch::names;
use crate::pvc::{parse_entry, splits_at, Pvc, PvcView};
use vstd::prelude::*;
use vstd::string::StrSliceExecFns;

verus! {

/// Whether `from..to` is an entry of the configuration: a stretch without `,`
/// that reaches from the start or a `,` to a `,` or the end.
pub open spec fn is_entry(config: Seq<char>, from: int, to: int) -> bool {
    &&& 0 <= from <= to <= config.len()
    &&& from == 0 || config[from - 1] == ','
    &&& to == config.len() || config[to] == ','
    &&& forall|k: int| from <= k < to ==> config[k] != ','
}

/// The claims named by the entries of the configuration that end before
/// `bound`.
pub open spec fn configured_before(config: Seq<char>, bound: int) -> Set<PvcView> {
    Set::new(
        |pvc: PvcView|
            exists|from: int, to: int|
                #[trigger] is_entry(config, from, to) && to < bound && parse_entry(
                    config.subrange(from, to),
                ) == Some(pvc),
    )
}

/// The allow-list that a configuration stands for: the claims named by its
/// comma-separated entries. An entry that names no claim adds nothing.
pub open spec fn configured(config: Seq<char>) -> Set<PvcView> {
    configured_before(config, config.len() + 1int)
}

/// The claim that an entry names, as a set: empty for an entry that names
/// none.
pub open spec fn named_by(entry: Seq<char>) -> Set<PvcView> {
    match parse_entry(entry) {
        Some(pvc) => Set::empty().insert(pvc),
        None => Set::empty(),
    }
}

/// Whether a claim is in scope of an allow-list: an empty list lets every
/// claim in, any other list its members.
pub open spec fn in_scope(allowed: Set<PvcView>, pvc: PvcView) -> bool {
    allowed =~= Set::empty() || allowed.contains(pvc)
}

/// The entries of a configuration end one after the other: those that end up
/// to the end of an entry are those that end before its start, and the entry
/// itself.
pub proof fn lemma_entry_step(config: Seq<char>, from: int, to: int)
    requires
        is_entry(config, from, to),
    ensures
        configured_before(config, to + 1) =~= configured_before(config, from).union(
            named_by(config.subrange(from, to)),
        ),
{
    let left = configured_before(config, to + 1);
    let right = configured_before(config, from).union(named_by(config.subrange(from, to)));
    assert forall|pvc: PvcView| left.contains(pvc) implies right.contains(pvc) by {
        let (f, t) = choose|f: int, t: int|
            #[trigger] is_entry(config, f, t) && t < to + 1 && parse_entry(config.subrange(f, t))
                == Some(pvc);
        if t < from {
            assert(configured_before(config, from).contains(pvc));
        } else {
            assert(t == to);
            if f < from {
                assert(config[from - 1] == ',');
            }
            if f > from {
                assert(config[f - 1] == ',');
            }
            assert(f == from);
            assert(named_by(config.subrange(from, to)).contains(pvc));
        }
    }
    assert forall|pvc: PvcView| right.contains(pvc) implies left.contains(pvc) by {
        if configured_before(config, from).contains(pvc) {
            let (f, t) = choose|f: int, t: int|
                #[trigger] is_entry(config, f, t) && t < from && parse_entry(
                    config.subrange(f, t),
                ) == Some(pvc);
            assert(is_entry(config, f, t) && t < to + 1);
        } else {
            assert(is_entry(config, from, to));
        }
    }
}

/// A configuration without `,` is one entry.
pub proof fn lemma_single_entry(entry: Seq<char>)
    requires
        !entry.contains(','),
    ensures
        configured(entry) =~= named_by(entry),
{
    assert(is_entry(entry, 0, entry.len() as int));
    lemma_entry_step(entry, 0, entry.len() as int);
    assert(entry.subrange(0, entry.len() as int) =~= entry);
    assert(configured_before(entry, 0) =~= Set::empty());
}

/// The empty configuration names no claim.
pub proof fn lemma_empty_config()
    ensures
        configured(Seq::<char>::empty()) =~= Set::<PvcView>::empty(),
{
    let empty = Seq::<char>::empty();
    lemma_single_entry(empty);
    assert forall|at: int| !splits_at(empty, at) by {}
}

/// The configuration `<namespace>/<claim name>` names that claim and no
/// other, where neither part holds a `,` or a `/`.
pub proof fn lemma_one_claim_config(namespace: Seq<char>, claim_name: Seq<char>)
    requires
        !namespace.contains(',') && !namespace.contains('/'),
        !claim_name.contains(',') && !claim_name.contains('/'),
    ensures
        configured(namespace + seq!['/'] + claim_name) =~= Set::<PvcView>::empty().insert(
            PvcView { namespace, claim_name },
        ),
{
    let entry = namespace + seq!['/'] + claim_name;
    let at = namespace.len() as int;
    assert forall|k: int| 0 <= k < entry.len() implies entry[k] != ',' by {
        if k < at {
            assert(namespace.contains(entry[k]));
        } else if k > at {
            assert(claim_name[k - at - 1] == entry[k]);
            assert(claim_name.contains(entry[k]));
        }
    }
    lemma_single_entry(entry);
    assert(splits_at(entry, at)) by {
        assert forall|k: int| 0 <= k < entry.len() && k != at implies entry[k] != '/' by {
            if k < at {
                assert(namespace.contains(entry[k]));
            } else {
                assert(claim_name[k - at - 1] == entry[k]);
                assert(claim_name.contains(entry[k]));
            }
        }
    }
    let chosen = choose|c: int| splits_at(entry, c);
    assert(chosen == at);
    assert(entry.take(at) =~= namespace);
    assert(entry.skip(at + 1) =~= claim_name);
}

/// The empty configuration lets every claim in.
pub proof fn lemma_empty_config_accepts_all(pvc: PvcView)
    ensures
        in_scope(configured(Seq::<char>::empty()), pvc),
{
    lemma_empty_config();
}

/// The configuration `<namespace>/<claim name>` lets that claim in and no
/// other: not the same name in another namespace, nor another name in the
/// same namespace.
pub proof fn lemma_one_claim_config_accepts_one(
    namespace: Seq<char>,
    claim_name: Seq<char>,
    pvc: PvcView,
)
    requires
        !namespace.contains(',') && !namespace.contains('/'),
        !claim_name.contains(',') && !claim_name.contains('/'),
    ensures
        in_scope(configured(namespace + seq!['/'] + claim_name), pvc) <==> pvc == (PvcView {
            namespace,
            claim_name,
        }),
{
    lemma_one_claim_config(namespace, claim_name);
    let only = PvcView { namespace, claim_name };
    assert(configured(namespace + seq!['/'] + claim_name).contains(only));
}

/// Two configurations joined by a `,` name the claims of both.
pub proof fn lemma_config_concat(first: Seq<char>, second: Seq<char>)
    ensures
        configured(first + seq![','] + second) =~= configured(first).union(configured(second)),
{
    let joined = first + seq![','] + second;
    let cut = first.len() as int;
    assert(joined[cut] == ',');
    assert forall|pvc: PvcView| configured(joined).contains(pvc) implies configured(first).union(
        configured(second),
    ).contains(pvc) by {
        let (f, t) = choose|f: int, t: int|
            #[trigger] is_entry(joined, f, t) && t < joined.len() + 1 && parse_entry(
                joined.subrange(f, t),
            ) == Some(pvc);
        if t <= cut {
            assert(joined.subrange(f, t) =~= first.subrange(f, t));
            assert(is_entry(first, f, t)) by {
                assert forall|k: int| f <= k < t implies first[k] != ',' by {
                    assert(joined[k] == first[k]);
                }
                if f > 0 {
                    assert(joined[f - 1] == first[f - 1]);
                }
                if t < cut {
                    assert(joined[t] == first[t]);
                }
            }
            assert(configured(first).contains(pvc));
        } else {
            assert(f >= cut + 1);
            assert(joined.subrange(f, t) =~= second.subrange(f - cut - 1, t - cut - 1));
            assert(is_entry(second, f - cut - 1, t - cut - 1)) by {
                assert forall|k: int| f - cut - 1 <= k < t - cut - 1 implies second[k] != ',' by {
                    assert(joined[k + cut + 1] == second[k]);
                }
                if f - cut - 1 > 0 {
                    assert(joined[f - 1] == second[f - cut - 2]);
                }
            }
            assert(configured(second).contains(pvc));
        }
    }
    assert forall|pvc: PvcView|
        configured(first).union(configured(second)).contains(pvc) implies configured(
        joined,
    ).contains(pvc) by {
        if configured(first).contains(pvc) {
            let (f, t) = choose|f: int, t: int|
                #[trigger] is_entry(first, f, t) && t < first.len() + 1 && parse_entry(
                    first.subrange(f, t),
                ) == Some(pvc);
            assert(joined.subrange(f, t) =~= first.subrange(f, t));
            assert(is_entry(joined, f, t)) by {
                assert forall|k: int| f <= k < t implies joined[k] != ',' by {
                    assert(joined[k] == first[k]);
                }
                if f > 0 {
                    assert(joined[f - 1] == first[f - 1]);
                }
            }
        } else {
            let (f, t) = choose|f: int, t: int|
                #[trigger] is_entry(second, f, t) && t < second.len() + 1 && parse_entry(
                    second.subrange(f, t),
                ) == Some(pvc);
            let shift = cut + 1;
            assert(joined.subrange(f + shift, t + shift) =~= second.subrange(f, t));
            assert(is_entry(joined, f + shift, t + shift)) by {
                assert forall|k: int| f + shift <= k < t + shift implies joined[k] != ',' by {
                    assert(joined[k] == second[k - shift]);
                }
                if f > 0 {
                    assert(joined[f + shift - 1] == second[f - 1]);
                }
                if t < second.len() {
                    assert(joined[t + shift] == second[t]);
                }
            }
        }
    }
}

/// An entry that names no claim is passed over: a configuration that holds it
/// between two others names the claims of those two.
pub proof fn lemma_malformed_entry_skipped(before: Seq<char>, entry: Seq<char>, after: Seq<char>)
    requires
        !entry.contains(','),
        parse_entry(entry) is None,
    ensures
        configured(before + seq![','] + entry + seq![','] + after) =~= configured(before).union(
            configured(after),
        ),
{
    lemma_single_entry(entry);
    lemma_config_concat(before, entry);
    lemma_config_concat(before + seq![','] + entry, after);
}

/// Whether `from..to` is an entry that is passed over with a warning: it is
/// not empty and names no claim.
pub open spec fn is_skipped(config: Seq<char>, from: int, to: int) -> bool {
    is_entry(config, from, to) && from < to && parse_entry(config.subrange(from, to)) is None
}

/// The entries that are passed over with a warning and end before `bound`, in
/// their order.
pub open spec fn skipped_before(config: Seq<char>, bound: int) -> Seq<Seq<char>>
    decreases bound,
{
    if bound <= 0 {
        Seq::empty()
    } else {
        let to = bound - 1;
        let earlier = skipped_before(config, to);
        if exists|from: int| is_skipped(config, from, to) {
            let from = choose|from: int| is_skipped(config, from, to);
            earlier.push(config.subrange(from, to))
        } else {
            earlier
        }
    }
}

/// The entries of a configuration that are passed over with a warning, in
/// their order.
pub open spec fn skipped(config: Seq<char>) -> Seq<Seq<char>> {
    skipped_before(config, config.len() + 1int)
}

/// The entry, empty or not, as a list of what is reported of it.
pub open spec fn reported(entry: Seq<char>) -> Seq<Seq<char>> {
    if entry.len() > 0 && parse_entry(entry) is None {
        Seq::empty().push(entry)
    } else {
        Seq::empty()
    }
}

/// Only one entry ends in a place.
pub proof fn lemma_entry_start_unique(config: Seq<char>, first: int, second: int, to: int)
    requires
        is_entry(config, first, to),
        is_entry(config, second, to),
    ensures
        first == second,
{
    if first < second {
        assert(config[second - 1] == ',');
    }
    if second < first {
        assert(config[first - 1] == ',');
    }
}

/// No entry ends inside an entry.
proof fn lemma_none_ends_inside(config: Seq<char>, from: int, to: int, at: int)
    requires
        is_entry(config, from, to),
        from <= at <= to,
    ensures
        skipped_before(config, at) == skipped_before(config, from),
    decreases at - from,
{
    if at > from {
        let inside = at - 1;
        lemma_none_ends_inside(config, from, to, inside);
        assert forall|start: int| !#[trigger] is_skipped(config, start, inside) by {
            if is_entry(config, start, inside) {
                assert(config[inside] == ',');
            }
        }
    }
}

/// The skipped entries come one after the other: those that end up to the end
/// of an entry are those that end before its start, and the entry itself
/// where it is skipped.
pub proof fn lemma_skipped_step(config: Seq<char>, from: int, to: int)
    requires
        is_entry(config, from, to),
    ensures
        skipped_before(config, to + 1) == skipped_before(config, from) + reported(
            config.subrange(from, to),
        ),
{
    lemma_none_ends_inside(config, from, to, to);
    let entry = config.subrange(from, to);
    if exists|start: int| is_skipped(config, start, to) {
        let start = choose|start: int| is_skipped(config, start, to);
        lemma_entry_start_unique(config, start, from, to);
        assert(skipped_before(config, to + 1) =~= skipped_before(config, from) + reported(entry));
    } else {
        assert(!is_skipped(config, from, to));
        assert(skipped_before(config, to + 1) =~= skipped_before(config, from) + reported(entry));
    }
}

/// Reports `entry` where it is passed over with a warning.
fn report_entry(out: &mut Vec<String>, entry: &str)
    ensures
        names(final(out)@) == names(old(out)@) + reported(entry@),
{
    if !entry.is_empty() {
        match Pvc::from_config_entry(entry) {
            Some(_) => {
                proof {
                    assert(names(out@) + reported(entry@) =~= names(out@));
                }
            },
            None => {
                let text = entry.to_owned();
                proof {
                    assert(names(out@.push(text)) =~= names(out@) + reported(entry@));
                }
                out.push(text);
            },
        }
    } else {
        proof {
            assert(names(out@) + reported(entry@) =~= names(out@));
        }
    }
}

/// The entries of a configuration that the controller passes over with a
/// warning: those that are not empty and not of the form
/// `<namespace>/<claim name>`, in their order.
pub fn skipped_entries(config: &str) -> (out: Vec<String>)
    ensures
        names(out@) == skipped(config@),
{
    let len = config.unicode_len();
    let mut out: Vec<String> = Vec::new();
    let mut start: usize = 0;
    let mut i: usize = 0;
    proof {
        assert(names(out@) =~= skipped_before(config@, 0));
    }
    while i < len
        invariant
            start <= i <= len,
            len == config@.len(),
            start == 0 || config@[start - 1] == ',',
            forall|k: int| start <= k < i ==> config@[k] != ',',
            names(out@) == skipped_before(config@, start as int),
        decreases len - i,
    {
        if config.get_char(i) == ',' {
            proof {
                lemma_skipped_step(config@, start as int, i as int);
            }
            report_entry(&mut out, config.substring_char(start, i));
            start = i + 1;
        }
        i += 1;
    }
    proof {
        lemma_skipped_step(config@, start as int, len as int);
    }
    report_entry(&mut out, config.substring_char(start, len));
    out
}

} // verus!
