//! The player list and the B50: who is listed, in which order, and which
//! fifty records are ranked.
use vstd::prelude::*;
use crate::jacket::{jacket_target, shows_jacket, target_for_chart, JacketEntry, JacketIndex};
use crate::models::{opt_text, MusicEntry, MusicRecord, PlayerSummary, Profile, SDVX_VERSION};
use crate::savedata::{lemma_score_count_bound, has_refid, profiles_are_unique_by_refid, score_count, NedbDoc, count_version7_scores, extract_profiles, nedb_documents, profiles_of, read_nedb_lines, score_counts};
use crate::volforce::{chart_level, clear_lamp, difficulty_label, label_of, lamp_name, level_of};
use crate::savedata::ProfileView;
use crate::text::{lemma_text_lt_total, lemma_text_lt_irreflexive, lemma_text_lt_transitive, text_less, text_lt};
use std::collections::HashMap;
use vstd::hash_map::StringHashMap;
use vstd::string::StringExecFns;

verus! {

broadcast use vstd::std_specs::hash::group_hash_axioms, vstd::seq_lib::to_multiset_insert;

/// A listed player as the specifications see it.
pub struct PlayerView {
    pub refid: Seq<char>,
    pub name: Seq<char>,
    pub sdvx_id: u64,
    pub score_count: usize,
}

impl View for PlayerSummary {
    type V = PlayerView;

    open spec fn view(&self) -> PlayerView {
        PlayerView {
            refid: self.refid@,
            name: self.name@,
            sdvx_id: self.sdvx_id,
            score_count: self.score_count,
        }
    }
}

/// The order of the player list: more scores first, then by name, then by refid.
pub open spec fn player_before(a: PlayerView, b: PlayerView) -> bool {
    ||| a.score_count > b.score_count
    ||| a.score_count == b.score_count && text_lt(a.name, b.name)
    ||| a.score_count == b.score_count && a.name == b.name && text_lt(a.refid, b.refid)
}

proof fn lemma_player_before_order(a: PlayerView, b: PlayerView, c: PlayerView)
    ensures
        !player_before(a, a),
        player_before(a, b) && player_before(b, c) ==> player_before(a, c),
{
    lemma_text_lt_irreflexive(a.name);
    lemma_text_lt_irreflexive(a.refid);
    if player_before(a, b) && player_before(b, c) {
        if a.score_count == b.score_count && b.score_count == c.score_count {
            if text_lt(a.name, b.name) && text_lt(b.name, c.name) {
                lemma_text_lt_transitive(a.name, b.name, c.name);
            }
            if text_lt(a.refid, b.refid) && text_lt(b.refid, c.refid) {
                lemma_text_lt_transitive(a.refid, b.refid, c.refid);
            }
        }
    }
}

/// The player list order is a strict total order on players with different
/// refids: no player comes before itself, the order is transitive, and of
/// two players with different refids one comes before the other. The list
/// order is therefore fixed by the players alone.
pub proof fn player_order_is_strict_and_total(a: PlayerView, b: PlayerView, c: PlayerView)
    ensures
        !player_before(a, a),
        player_before(a, b) && player_before(b, c) ==> player_before(a, c),
        a.refid != b.refid ==> player_before(a, b) || player_before(b, a),
{
    lemma_player_before_order(a, b, c);
    lemma_text_lt_total(a.name, b.name);
    lemma_text_lt_total(a.refid, b.refid);
}

/// The players in list order: no player comes after one it sorts before.
pub open spec fn players_sorted(s: Seq<PlayerView>) -> bool {
    forall|i: int, j: int| 0 <= i < j < s.len() ==> !player_before(#[trigger] s[j], #[trigger] s[i])
}

/// The views of a list of players.
pub open spec fn player_views(s: Seq<PlayerSummary>) -> Seq<PlayerView> {
    s.map_values(|p: PlayerSummary| p@)
}

fn player_less(a: &PlayerSummary, b: &PlayerSummary) -> (r: bool)
    ensures
        r == player_before(a@, b@),
{
    if a.score_count != b.score_count {
        return a.score_count > b.score_count;
    }
    if text_less(a.name.as_str(), b.name.as_str()) {
        return true;
    }
    if crate::text::same_text(a.name.as_str(), b.name.as_str()) {
        return text_less(a.refid.as_str(), b.refid.as_str());
    }
    false
}

fn insert_player(out: &mut Vec<PlayerSummary>, p: PlayerSummary)
    requires
        players_sorted(player_views(old(out)@)),
    ensures
        players_sorted(player_views(final(out)@)),
        player_views(final(out)@).to_multiset() == player_views(old(out)@).to_multiset().insert(p@),
{
    let ghost before = player_views(out@);
    let ghost pv = p@;
    let mut i: usize = 0;
    while i < out.len() && !player_less(&p, &out[i])
        invariant
            i <= out@.len(),
            out@ == old(out)@,
            before == player_views(out@),
            pv == p@,
            forall|k: int| 0 <= k < i ==> !player_before(pv, #[trigger] before[k]),
        decreases out@.len() - i,
    {
        i = i + 1;
    }
    out.insert(i, p);
    proof {
        let after = player_views(out@);
        assert(after =~= before.insert(i as int, pv));
        assert forall|a: int, b: int| 0 <= a < b < after.len() implies !player_before(
            #[trigger] after[b],
            #[trigger] after[a],
        ) by {
            if a < i && b < i {
                assert(after[a] == before[a] && after[b] == before[b]);
            } else if a < i && b == i {
                assert(after[a] == before[a] && after[b] == pv);
            } else if a < i {
                assert(after[a] == before[a] && after[b] == before[b - 1]);
            } else if a == i {
                assert(after[a] == pv && after[b] == before[b - 1]);
                lemma_player_before_order(before[b - 1], pv, before[i as int]);
                lemma_player_before_order(before[i as int], pv, pv);
                if b - 1 > i {
                    lemma_player_before_order(before[b - 1], pv, before[i as int]);
                }
            } else {
                assert(after[a] == before[a - 1] && after[b] == before[b - 1]);
            }
        }
    }
}

/// The players of the profiles that have scores, in profile order, each
/// with its score count.
pub open spec fn listed_players(profiles: Seq<ProfileView>, counts: Map<Seq<char>, usize>) -> Seq<
    PlayerView,
>
    decreases profiles.len(),
{
    if profiles.len() == 0 {
        Seq::empty()
    } else {
        let prev = listed_players(profiles.drop_last(), counts);
        let p = profiles.last();
        let c = if counts.contains_key(p.refid) {
            counts[p.refid]
        } else {
            0
        };
        if c > 0 {
            prev.push(PlayerView { refid: p.refid, name: p.name, sdvx_id: p.sdvx_id, score_count: c })
        } else {
            prev
        }
    }
}

/// The player list: the profiles with at least one score, each with its
/// score count, ordered by more scores first, then name, then refid.
pub fn player_list(profiles: Vec<Profile>, counts: &StringHashMap<usize>) -> (r: Vec<PlayerSummary>)
    ensures
        players_sorted(player_views(r@)),
        player_views(r@).to_multiset() == listed_players(
            profiles@.map_values(|p: Profile| p@),
            counts@,
        ).to_multiset(),
{
    let ghost views = profiles@.map_values(|p: Profile| p@);
    let mut out: Vec<PlayerSummary> = Vec::new();
    let mut rest = profiles;
    let mut taken: usize = 0;
    let ghost total = rest@;
    let n = rest.len();
    assert(total.skip(0) == total);
    assert(player_views(out@) =~= listed_players(views.take(0), counts@));
    while taken < n
        invariant
            taken <= n,
            n == total.len(),
            views == total.map_values(|p: Profile| p@),
            rest@ == total.skip(taken as int),
            players_sorted(player_views(out@)),
            player_views(out@).to_multiset() == listed_players(
                views.take(taken as int),
                counts@,
            ).to_multiset(),
        decreases n - taken,
    {
        assert(rest@.len() == n - taken);
        let p = rest.remove(0);
        assert(p == total[taken as int]);
        assert(rest@ =~= total.skip(taken + 1));
        assert(views.take(taken + 1).drop_last() =~= views.take(taken as int));
        assert(views.take(taken + 1).last() == p@);
        let c = match counts.get(p.refid.as_str()) {
            Some(c) => *c,
            None => 0,
        };
        let ghost prev_list = listed_players(views.take(taken as int), counts@);
        if c > 0 {
            let s = PlayerSummary { refid: p.refid, name: p.name, sdvx_id: p.sdvx_id, score_count: c };
            let ghost sv = s@;
            insert_player(&mut out, s);
            proof {
                assert(listed_players(views.take(taken + 1), counts@) == prev_list.push(sv));
                vstd::seq_lib::to_multiset_build(prev_list, sv);
            }
        } else {
            assert(listed_players(views.take(taken + 1), counts@) == prev_list);
        }
        taken = taken + 1;
    }
    assert(views.take(n as int) =~= views);
    out
}

proof fn lemma_listed_players(ps: Seq<ProfileView>, counts: Map<Seq<char>, usize>)
    requires
        forall|i: int, j: int| 0 <= i < j < ps.len() ==> #[trigger] ps[i].refid != #[trigger] ps[j].refid,
    ensures
        forall|i: int|
            0 <= i < listed_players(ps, counts).len() ==> has_refid(
                ps,
                #[trigger] listed_players(ps, counts)[i].refid,
            ),
        forall|i: int, j: int|
            0 <= i < j < listed_players(ps, counts).len() ==> #[trigger] listed_players(ps, counts)[i].refid
                != #[trigger] listed_players(ps, counts)[j].refid,
        forall|i: int|
            0 <= i < listed_players(ps, counts).len() ==> {
                let p = #[trigger] listed_players(ps, counts)[i];
                p.score_count > 0 && counts.contains_key(p.refid) && counts[p.refid] == p.score_count
            },
    decreases ps.len(),
{
    if ps.len() > 0 {
        let prev = ps.drop_last();
        lemma_listed_players(prev, counts);
        let l = listed_players(prev, counts);
        let out = listed_players(ps, counts);
        assert forall|i: int| 0 <= i < out.len() implies has_refid(ps, #[trigger] out[i].refid) by {
            if i < l.len() {
                assert(out[i] == l[i]);
                let w = choose|w: int| 0 <= w < prev.len() && prev[w].refid == l[i].refid;
                assert(ps[w] == prev[w]);
            } else {
                assert(ps[ps.len() - 1].refid == out[i].refid);
            }
        }
        assert forall|i: int, j: int| 0 <= i < j < out.len() implies #[trigger] out[i].refid
            != #[trigger] out[j].refid by {
            if j < l.len() {
                assert(out[i] == l[i] && out[j] == l[j]);
            } else {
                assert(out[i] == l[i]);
                let w = choose|w: int| 0 <= w < prev.len() && prev[w].refid == l[i].refid;
                assert(ps[w] == prev[w]);
                assert(out[j].refid == ps[ps.len() - 1].refid);
            }
        }
        assert forall|i: int| 0 <= i < out.len() implies {
            let p = #[trigger] out[i];
            p.score_count > 0 && counts.contains_key(p.refid) && counts[p.refid] == p.score_count
        } by {
            if i < l.len() {
                assert(out[i] == l[i]);
            }
        }
    }
}

/// The player list names each player once, each with the number of its
/// version 7 scores, which is never zero.
pub proof fn scanned_players_are_distinct_and_have_scores(docs: Seq<NedbDoc>)
    requires
        docs.len() <= usize::MAX,
    ensures
        forall|i: int, j: int|
            0 <= i < j < listed_players(profiles_of(docs), score_counts(docs)).len()
                ==> #[trigger] listed_players(profiles_of(docs), score_counts(docs))[i].refid
                != #[trigger] listed_players(profiles_of(docs), score_counts(docs))[j].refid,
        forall|i: int|
            0 <= i < listed_players(profiles_of(docs), score_counts(docs)).len() ==> {
                let p = #[trigger] listed_players(profiles_of(docs), score_counts(docs))[i];
                p.score_count > 0 && p.score_count == score_count(docs, p.refid)
            },
{
    profiles_are_unique_by_refid(docs);
    lemma_listed_players(profiles_of(docs), score_counts(docs));
    let l = listed_players(profiles_of(docs), score_counts(docs));
    assert forall|i: int| 0 <= i < l.len() implies {
        let p = #[trigger] l[i];
        p.score_count > 0 && p.score_count == score_count(docs, p.refid)
    } by {
        lemma_score_count_bound(docs, l[i].refid);
        assert(score_counts(docs)[l[i].refid] == score_count(docs, l[i].refid) as usize);
    }
}

/// The B50 order: higher Volforce first, then higher score, then lower song
/// id, then lower chart type.
pub open spec fn record_before(a: MusicRecord, b: MusicRecord) -> bool {
    ||| a.volforce > b.volforce
    ||| a.volforce == b.volforce && a.score > b.score
    ||| a.volforce == b.volforce && a.score == b.score && a.mid < b.mid
    ||| a.volforce == b.volforce && a.score == b.score && a.mid == b.mid && a.chart_type
        < b.chart_type
}

/// The records in B50 order: no record comes after one it sorts before.
pub open spec fn records_sorted(s: Seq<MusicRecord>) -> bool {
    forall|i: int, j: int| 0 <= i < j < s.len() ==> !record_before(#[trigger] s[j], #[trigger] s[i])
}

fn record_less(a: &MusicRecord, b: &MusicRecord) -> (r: bool)
    ensures
        r == record_before(*a, *b),
{
    if a.volforce != b.volforce {
        return a.volforce > b.volforce;
    }
    if a.score != b.score {
        return a.score > b.score;
    }
    if a.mid != b.mid {
        return a.mid < b.mid;
    }
    a.chart_type < b.chart_type
}

/// Sorts records into B50 order; records that tie keep their order.
pub fn sort_records(records: &Vec<MusicRecord>) -> (out: Vec<MusicRecord>)
    ensures
        records_sorted(out@),
        out@.to_multiset() == records@.to_multiset(),
{
    let mut out: Vec<MusicRecord> = Vec::new();
    let mut k: usize = 0;
    assert(out@ =~= records@.take(0));
    while k < records.len()
        invariant
            k <= records@.len(),
            records_sorted(out@),
            out@.to_multiset() == records@.take(k as int).to_multiset(),
        decreases records@.len() - k,
    {
        let r = records[k];
        let ghost before = out@;
        let mut i: usize = 0;
        while i < out.len() && !record_less(&r, &out[i])
            invariant
                i <= out@.len(),
                out@ == before,
                forall|j: int| 0 <= j < i ==> !record_before(r, #[trigger] before[j]),
            decreases out@.len() - i,
        {
            i = i + 1;
        }
        out.insert(i, r);
        proof {
            let after = out@;
            assert(after =~= before.insert(i as int, r));
            assert forall|a: int, b: int| 0 <= a < b < after.len() implies !record_before(
                #[trigger] after[b],
                #[trigger] after[a],
            ) by {
                if a < i && b < i {
                    assert(after[a] == before[a] && after[b] == before[b]);
                } else if a < i && b == i {
                    assert(after[a] == before[a] && after[b] == r);
                } else if a < i {
                    assert(after[a] == before[a] && after[b] == before[b - 1]);
                } else if a == i {
                    assert(after[a] == r && after[b] == before[b - 1]);
                } else {
                    assert(after[a] == before[a - 1] && after[b] == before[b - 1]);
                }
            }
            assert(records@.take(k + 1) =~= records@.take(k as int).push(r));
            vstd::seq_lib::to_multiset_build(records@.take(k as int), r);
        }
        k = k + 1;
    }
    assert(records@.take(records@.len() as int) =~= records@);
    out
}

proof fn lemma_known_records_known(records: Seq<MusicRecord>, music_db: Map<u32, MusicEntry>)
    ensures
        forall|j: int|
            0 <= j < known_records(records, music_db).len() ==> music_db.contains_key(
                #[trigger] known_records(records, music_db)[j].mid,
            ),
    decreases records.len(),
{
    if records.len() > 0 {
        lemma_known_records_known(records.drop_last(), music_db);
        let prev = known_records(records.drop_last(), music_db);
        let now = known_records(records, music_db);
        assert forall|j: int| 0 <= j < now.len() implies music_db.contains_key(#[trigger] now[j].mid) by {
            if j < prev.len() {
                assert(now[j] == prev[j]);
            }
        }
    }
}

/// The records whose song the music database holds, in order.
pub open spec fn known_records(records: Seq<MusicRecord>, music_db: Map<u32, MusicEntry>) -> Seq<
    MusicRecord,
>
    decreases records.len(),
{
    if records.len() == 0 {
        Seq::empty()
    } else {
        let prev = known_records(records.drop_last(), music_db);
        if music_db.contains_key(records.last().mid) {
            prev.push(records.last())
        } else {
            prev
        }
    }
}

/// The number of records a B50 ranks.
pub const B50_SIZE: usize = 50;

/// The B50: of the records whose song the music database holds, the fifty
/// first in B50 order (all of them when there are fewer).
pub fn select_b50(records: &Vec<MusicRecord>, music_db: &HashMap<u32, MusicEntry>) -> (top: Vec<
    MusicRecord,
>)
    ensures
        top@.len() == if known_records(records@, music_db@).len() < 50 {
            known_records(records@, music_db@).len()
        } else {
            50
        },
        exists|all: Seq<MusicRecord>|
            records_sorted(all) && all.to_multiset() == known_records(
                records@,
                music_db@,
            ).to_multiset() && top@ == all.take(top@.len() as int),
{
    let mut known: Vec<MusicRecord> = Vec::new();
    let mut k: usize = 0;
    while k < records.len()
        invariant
            k <= records@.len(),
            known@ == known_records(records@.take(k as int), music_db@),
        decreases records@.len() - k,
    {
        assert(records@.take(k + 1).drop_last() == records@.take(k as int));
        assert(records@.take(k + 1).last() == records@[k as int]);
        if music_db.contains_key(&records[k].mid) {
            known.push(records[k]);
        }
        k = k + 1;
    }
    assert(records@.take(records@.len() as int) == records@);
    let mut all = sort_records(&known);
    let ghost sorted = all@;
    if all.len() > B50_SIZE {
        all.truncate(B50_SIZE);
    }
    assert(all@ == sorted.take(all@.len() as int));
    proof {
        vstd::seq_lib::to_multiset_len(sorted);
        vstd::seq_lib::to_multiset_len(known@);
    }
    all
}

/// The sum of the Volforce values of the records.
pub open spec fn volforce_sum(records: Seq<MusicRecord>) -> nat
    decreases records.len(),
{
    if records.len() == 0 {
        0
    } else {
        volforce_sum(records.drop_last()) + records.last().volforce as nat
    }
}

proof fn lemma_volforce_sum_bound(records: Seq<MusicRecord>)
    ensures
        volforce_sum(records) <= records.len() * (u32::MAX as nat),
    decreases records.len(),
{
    if records.len() > 0 {
        lemma_volforce_sum_bound(records.drop_last());
    }
}

/// The total Volforce of the ranked records, in thousandths as stored.
pub fn total_volforce(records: &Vec<MusicRecord>) -> (r: u64)
    requires
        records@.len() <= B50_SIZE,
    ensures
        r == volforce_sum(records@),
{
    let mut total: u64 = 0;
    let mut k: usize = 0;
    while k < records.len()
        invariant
            k <= records@.len() <= 50,
            total == volforce_sum(records@.take(k as int)),
        decreases records@.len() - k,
    {
        assert(records@.take(k + 1).drop_last() == records@.take(k as int));
        proof {
            lemma_volforce_sum_bound(records@.take(k as int));
            assert(volforce_sum(records@.take(k as int)) <= 50 * (u32::MAX as nat)) by (nonlinear_arith)
                requires volforce_sum(records@.take(k as int)) <= (k as nat) * (u32::MAX as nat), k <= 50;
        }
        total = total + records[k].volforce as u64;
        k = k + 1;
    }
    assert(records@.take(records@.len() as int) == records@);
    total
}

/// The listed player for `refid`, or the error when the save data has no
/// version 7 profile for it; the score count is 0 when the player has none.
pub open spec fn player_for(
    profiles: Seq<ProfileView>,
    counts: Map<Seq<char>, usize>,
    refid: Seq<char>,
) -> Result<PlayerView, Seq<char>>
    decreases profiles.len(),
{
    if profiles.len() == 0 {
        Err("Selected player has no SDVX 7 profile."@)
    } else if profiles[0].refid == refid {
        let p = profiles[0];
        Ok(
            PlayerView {
                refid: p.refid,
                name: p.name,
                sdvx_id: p.sdvx_id,
                score_count: if counts.contains_key(p.refid) {
                    counts[p.refid]
                } else {
                    0
                },
            },
        )
    } else {
        player_for(profiles.drop_first(), counts, refid)
    }
}

/// The listed player for the selected refid, with its score count.
pub fn find_player(profiles: &Vec<Profile>, counts: &StringHashMap<usize>, refid: &str) -> (r: Result<
    PlayerSummary,
    String,
>)
    ensures
        match r {
            Ok(p) => player_for(profiles@.map_values(|p: Profile| p@), counts@, refid@) == Ok::<
                PlayerView,
                Seq<char>,
            >(p@),
            Err(e) => player_for(profiles@.map_values(|p: Profile| p@), counts@, refid@) == Err::<
                PlayerView,
                Seq<char>,
            >(e@),
        },
{
    let ghost views = profiles@.map_values(|p: Profile| p@);
    let mut k: usize = 0;
    assert(views.skip(0) == views);
    while k < profiles.len()
        invariant
            k <= profiles@.len(),
            views == profiles@.map_values(|p: Profile| p@),
            player_for(views, counts@, refid@) == player_for(views.skip(k as int), counts@, refid@),
        decreases profiles@.len() - k,
    {
        assert(views.skip(k as int)[0] == profiles@[k as int]@);
        assert(views.skip(k as int).drop_first() == views.skip(k + 1));
        let p = &profiles[k];
        if crate::text::same_text(p.refid.as_str(), refid) {
            let c = match counts.get(p.refid.as_str()) {
                Some(c) => *c,
                None => 0,
            };
            return Ok(
                PlayerSummary {
                    refid: p.refid.clone(),
                    name: p.name.clone(),
                    sdvx_id: p.sdvx_id,
                    score_count: c,
                },
            );
        }
        k = k + 1;
    }
    Err(String::from_str("Selected player has no SDVX 7 profile."))
}

/// What a scan of the inputs reports: the game version and its players.
pub struct ScanResult {
    pub version: u64,
    pub players: Vec<PlayerSummary>,
}

/// Scans the text of the save data's database file: the version 7 players
/// that have scores, in player list order. A line that is not JSON is an
/// error; `db_path` names the file in that error.
pub fn scan_inputs_inner(content: &str, db_path: &str) -> (r: Result<ScanResult, String>)
    ensures
        match nedb_documents(content@, db_path@) {
            Err(e) => r matches Err(m) && m@ == e,
            Ok(docs) => r matches Ok(scan) && scan.version == SDVX_VERSION && players_sorted(
                player_views(scan.players@),
            ) && player_views(scan.players@).to_multiset() == listed_players(
                profiles_of(docs),
                score_counts(docs),
            ).to_multiset(),
        },
{
    let docs = read_nedb_lines(content, db_path)?;
    let profiles = extract_profiles(docs.as_slice());
    let counts = count_version7_scores(docs.as_slice());
    let players = player_list(profiles, &counts);
    Ok(ScanResult { version: SDVX_VERSION, players })
}

/// One ranked chart of a B50, before its numbers are rendered as text.
pub struct B50Entry {
    pub rank: usize,
    pub mid: u32,
    pub title: String,
    pub difficulty_label: String,
    pub level: Option<u32>,
    pub score: u32,
    pub clear_lamp: String,
    pub volforce: u32,
    pub jacket_path: Option<String>,
}

/// A B50 of a player: the ranked charts and their total Volforce.
pub struct B50Plan {
    pub version: u64,
    pub player: PlayerSummary,
    pub total_volforce: u64,
    pub cards: Vec<B50Entry>,
}

/// Whether `c` is the card of rank `i + 1` for the record `rec`: the song's
/// title, label and level come from the music database, the jacket is the
/// one the chart shows.
pub open spec fn card_for(
    c: B50Entry,
    i: int,
    rec: MusicRecord,
    music_db: Map<u32, MusicEntry>,
    jackets: Map<u32, Vec<JacketEntry>>,
) -> bool {
    &&& c.rank == i + 1
    &&& c.mid == rec.mid
    &&& c.score == rec.score
    &&& c.volforce == rec.volforce
    &&& music_db.contains_key(rec.mid)
    &&& c.title@ == music_db[rec.mid].title@
    &&& c.difficulty_label@ == label_of(rec.chart_type, music_db[rec.mid].inf_ver)
    &&& c.level == level_of(rec, music_db)
    &&& c.clear_lamp@ == lamp_name(rec.clear)
    &&& shows_jacket(opt_text(c.jacket_path), jackets, rec.mid, jacket_target(rec.chart_type))
}

/// The B50 of `player` from records whose Volforce is final: the records of
/// songs the music database knows, in B50 order, the first fifty of them,
/// each with its card, and the sum of their Volforce.
pub fn generate_b50_inner(
    player: PlayerSummary,
    records: &Vec<MusicRecord>,
    music_db: &HashMap<u32, MusicEntry>,
    jackets: &JacketIndex,
) -> (r: B50Plan)
    ensures
        r.version == SDVX_VERSION,
        r.player@ == player@,
        r.cards@.len() == if known_records(records@, music_db@).len() < 50 {
            known_records(records@, music_db@).len()
        } else {
            50
        },
        exists|all: Seq<MusicRecord>|
            {
                &&& records_sorted(all)
                &&& all.to_multiset() == known_records(records@, music_db@).to_multiset()
                &&& r.total_volforce == volforce_sum(all.take(r.cards@.len() as int))
                &&& forall|i: int|
                    0 <= i < r.cards@.len() ==> card_for(
                        #[trigger] r.cards@[i],
                        i,
                        all[i],
                        music_db@,
                        jackets.jackets@,
                    )
            },
{
    let top = select_b50(records, music_db);
    let ghost all = choose|all: Seq<MusicRecord>|
        records_sorted(all) && all.to_multiset() == known_records(records@, music_db@).to_multiset()
            && top@ == all.take(top@.len() as int);
    let total_volforce = total_volforce(&top);
    proof {
        let known = known_records(records@, music_db@);
        lemma_known_records_known(records@, music_db@);
        vstd::seq_lib::to_multiset_len(all);
        vstd::seq_lib::to_multiset_len(known);
        assert(top@.len() <= all.len());
        assert forall|j: int| 0 <= j < top@.len() implies music_db@.contains_key(
            #[trigger] top@[j].mid,
        ) by {
            assert(top@[j] == all[j]);
            vstd::seq_lib::to_multiset_contains(all, all[j]);
            vstd::seq_lib::to_multiset_contains(known, all[j]);
            assert(all.contains(all[j]));
            let w = choose|w: int| 0 <= w < known.len() && known[w] == all[j];
            assert(music_db@.contains_key(known[w].mid));
        }
    }
    let mut cards: Vec<B50Entry> = Vec::new();
    let mut k: usize = 0;
    while k < top.len()
        invariant
            k <= top@.len(),
            cards@.len() == k,
            top@.len() <= 50,
            forall|j: int| 0 <= j < top@.len() ==> music_db@.contains_key(#[trigger] top@[j].mid),
            forall|i: int|
                0 <= i < k ==> card_for(#[trigger] cards@[i], i, top@[i], music_db@, jackets.jackets@),
        decreases top@.len() - k,
    {
        let rec = top[k];
        let music = music_db.get(&rec.mid).unwrap();
        let card = B50Entry {
            rank: k + 1,
            mid: rec.mid,
            title: music.title.clone(),
            difficulty_label: difficulty_label(rec.chart_type, music.inf_ver),
            level: chart_level(&rec, music_db),
            score: rec.score,
            clear_lamp: clear_lamp(rec.clear),
            volforce: rec.volforce,
            jacket_path: jackets.select(rec.mid, target_for_chart(rec.chart_type)),
        };
        cards.push(card);
        k = k + 1;
    }
    proof {
        assert(all.take(cards@.len() as int) == top@);
        assert forall|i: int| 0 <= i < cards@.len() implies card_for(
            #[trigger] cards@[i],
            i,
            all[i],
            music_db@,
            jackets.jackets@,
        ) by {
            assert(top@[i] == all.take(top@.len() as int)[i]);
        }
    }
    B50Plan { version: SDVX_VERSION, player, total_volforce, cards }
}

} // verus!
