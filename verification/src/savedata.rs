//! The Asphyxia save data: `sdvx@asphyxia.db`, one JSON document per line.
use vstd::prelude::*;
use crate::models::{opt_text, MusicRecord, Profile, SDVX_VERSION};
use crate::text::{split_char, split_on, append_str, chars_of, decimal, decimal_string, string_of, trim, trim_chars};
use crate::volforce::{better_clear, better_lamp, clear_coefficient};
use std::collections::HashMap;
use vstd::hash_map::StringHashMap;
use vstd::string::StringExecFns;

use crate::paths::{joined, path_join};

verus! {

/// The database file under the save data folder.
pub const SDVX_DB_FILE: &'static str = "sdvx@asphyxia.db";

/// Which of the checks on the save data folder fails first, given what the
/// file system reports: the folder itself, then the database file in it.
pub open spec fn savedata_verdict(is_dir: bool, has_db_file: bool) -> Result<(), Seq<char>> {
    if !is_dir {
        Err("The selected savedata path is not a directory."@)
    } else if !has_db_file {
        Err("Missing "@ + SDVX_DB_FILE@ + " under the selected savedata path."@)
    } else {
        Ok(())
    }
}

/// The database file under the save data folder `savedata_dir`.
pub fn savedata_db_path(savedata_dir: &str) -> (r: String)
    ensures
        r@ == joined(savedata_dir@, SDVX_DB_FILE@),
{
    path_join(savedata_dir, SDVX_DB_FILE)
}

/// Checks the save data folder `savedata_dir`, given what the file system
/// reports of it and of its database file; on success, the database file.
pub fn validate_savedata_dir(savedata_dir: &str, is_dir: bool, has_db_file: bool) -> (r: Result<
    String,
    String,
>)
    ensures
        match r {
            Ok(p) => savedata_verdict(is_dir, has_db_file) == Ok::<(), Seq<char>>(()) && p@
                == joined(savedata_dir@, SDVX_DB_FILE@),
            Err(e) => savedata_verdict(is_dir, has_db_file) == Err::<(), Seq<char>>(e@),
        },
{
    if !is_dir {
        Err(String::from_str("The selected savedata path is not a directory."))
    } else if !has_db_file {
        let mut m = String::from_str("Missing ");
        append_str(&mut m, SDVX_DB_FILE);
        append_str(&mut m, " under the selected savedata path.");
        Err(m)
    } else {
        Ok(path_join(savedata_dir, SDVX_DB_FILE))
    }
}

/// The fields of a save data document that the B50 reads: a string field is
/// present when the document holds a string there, a number field when it
/// holds a non-negative integer that fits in `u64`.
#[derive(Debug)]
pub struct NedbDoc {
    pub collection: Option<String>,
    pub version: Option<u64>,
    pub refid: Option<String>,
    pub name: Option<String>,
    pub id: Option<u64>,
    pub mid: Option<u64>,
    pub chart_type: Option<u64>,
    pub score: Option<u64>,
    pub clear: Option<u64>,
    pub grade: Option<u64>,
    pub volforce: Option<u64>,
}

/// The document that `serde_json` reads out of a line, or its error text.
pub uninterp spec fn nedb_document(line: Seq<char>) -> Result<NedbDoc, Seq<char>>;

/// Parses one line with `serde_json::from_str::<Value>` and reads its fields
/// with `Value::get` and `as_str` / `as_u64`; the outcome is named, not
/// written out.
#[verifier::external_body]
pub(crate) fn parse_json_line(line: &str) -> (r: Result<NedbDoc, String>)
    ensures
        match r {
            Ok(d) => nedb_document(line@) == Ok::<NedbDoc, Seq<char>>(d),
            Err(e) => nedb_document(line@) == Err::<NedbDoc, Seq<char>>(e@),
        },
{
    let v: serde_json::Value = serde_json::from_str(line).map_err(|err| err.to_string())?;
    let s = |k: &str| v.get(k).and_then(|x| x.as_str()).map(|x| x.to_string());
    let n = |k: &str| v.get(k).and_then(|x| x.as_u64());
    Ok(NedbDoc {
        collection: s("collection"), version: n("version"), refid: s("__refid"),
        name: s("name"), id: n("id"), mid: n("mid"), chart_type: n("type"),
        score: n("score"), clear: n("clear"), grade: n("grade"), volforce: n("volforce"),
    })
}

/// The documents of the first `n` lines, or the error of the first line that
/// is not JSON; blank lines are skipped and lines are numbered from one.
pub open spec fn documents(lines: Seq<Seq<char>>, n: nat, path: Seq<char>) -> Result<
    Seq<NedbDoc>,
    Seq<char>,
>
    decreases n,
{
    if n == 0 {
        Ok(Seq::empty())
    } else {
        match documents(lines, (n - 1) as nat, path) {
            Err(e) => Err(e),
            Ok(docs) => {
                let line = trim(lines[n - 1]);
                if line.len() == 0 {
                    Ok(docs)
                } else {
                    match nedb_document(line) {
                        Ok(d) => Ok(docs.push(d)),
                        Err(e) => Err(
                            "Failed to parse "@ + path + " line "@ + decimal(n as nat)
                                + " as JSON: "@ + e,
                        ),
                    }
                }
            },
        }
    }
}

/// The documents of a database file's text.
pub open spec fn nedb_documents(content: Seq<char>, path: Seq<char>) -> Result<
    Seq<NedbDoc>,
    Seq<char>,
> {
    documents(split_on(content, '\n'), split_on(content, '\n').len(), path)
}

/// Reads the documents of the database file's text; `path` names the file
/// in error messages.
pub fn read_nedb_lines(content: &str, path: &str) -> (r: Result<Vec<NedbDoc>, String>)
    ensures
        match nedb_documents(content@, path@) {
            Ok(docs) => r matches Ok(v) && v@ == docs,
            Err(e) => r matches Err(m) && m@ == e,
        },
{
    let lines = split_char(content, '\n');
    let ghost all = split_on(content@, '\n');
    let mut docs: Vec<NedbDoc> = Vec::new();
    let mut k: usize = 0;
    while k < lines.len()
        invariant
            k <= lines@.len(),
            lines@.len() == all.len(),
            all == split_on(content@, '\n'),
            forall|j: int| 0 <= j < lines@.len() ==> #[trigger] lines@[j]@ == all[j],
            documents(all, k as nat, path@) == Ok::<Seq<NedbDoc>, Seq<char>>(docs@),
        decreases lines@.len() - k,
    {
        let line = trim_chars(&lines[k]);
        assert(line@ == trim(all[k as int]));
        if line.len() > 0 {
            let text = string_of(line.as_slice());
            match parse_json_line(text.as_str()) {
                Ok(d) => {
                    docs.push(d);
                },
                Err(e) => {
                    let mut m = String::from_str("Failed to parse ");
                    append_str(&mut m, path);
                    append_str(&mut m, " line ");
                    let num = decimal_string((k + 1) as u64);
                    append_str(&mut m, num.as_str());
                    append_str(&mut m, " as JSON: ");
                    append_str(&mut m, e.as_str());
                    proof {
                        lemma_documents_error_stays(all, (k + 1) as nat, all.len(), path@);
                    }
                    assert(m@ =~= "Failed to parse "@ + path@ + " line "@ + decimal((k + 1) as nat)
                        + " as JSON: "@ + e@);
                    return Err(m);
                },
            }
        }
        k = k + 1;
    }
    Ok(docs)
}

proof fn lemma_documents_error_stays(lines: Seq<Seq<char>>, k: nat, n: nat, path: Seq<char>)
    requires
        k <= n,
        documents(lines, k, path) is Err,
    ensures
        documents(lines, n, path) == documents(lines, k, path),
    decreases n - k,
{
    if k < n {
        lemma_documents_error_stays(lines, k, (n - 1) as nat, path);
    }
}

/// Whether a document is a version 7 document of the given collection.
pub open spec fn in_collection(d: NedbDoc, collection: Seq<char>) -> bool {
    opt_text(d.collection) == Some(collection) && d.version == Some(SDVX_VERSION)
}

fn doc_in_collection(d: &NedbDoc, collection: &str) -> (r: bool)
    ensures
        r == in_collection(*d, collection@),
{
    let c = match &d.collection {
        Some(c) => crate::text::same_text(c.as_str(), collection),
        None => false,
    };
    c && match d.version {
        Some(v) => v == SDVX_VERSION,
        None => false,
    }
}

/// A profile as the specifications see it.
pub struct ProfileView {
    pub refid: Seq<char>,
    pub name: Seq<char>,
    pub sdvx_id: u64,
}

impl View for Profile {
    type V = ProfileView;

    open spec fn view(&self) -> ProfileView {
        ProfileView { refid: self.refid@, name: self.name@, sdvx_id: self.sdvx_id }
    }
}

/// The profile a document holds: a version 7 `profile` document with a
/// `__refid`; the name defaults to `UNKNOWN` and the id to 0.
pub open spec fn profile_of(d: NedbDoc) -> Option<ProfileView> {
    if in_collection(d, "profile"@) {
        match d.refid {
            None => None,
            Some(r) => Some(
                ProfileView {
                    refid: r@,
                    name: match d.name {
                        Some(n) => n@,
                        None => "UNKNOWN"@,
                    },
                    sdvx_id: match d.id {
                        Some(i) => i,
                        None => 0,
                    },
                },
            ),
        }
    } else {
        None
    }
}

/// Whether one of `ps` has the refid `refid`.
pub open spec fn has_refid(ps: Seq<ProfileView>, refid: Seq<char>) -> bool {
    exists|i: int| 0 <= i < ps.len() && ps[i].refid == refid
}

/// The profiles of the documents in order, keeping the first profile of
/// each refid.
pub open spec fn profiles_of(docs: Seq<NedbDoc>) -> Seq<ProfileView>
    decreases docs.len(),
{
    if docs.len() == 0 {
        Seq::empty()
    } else {
        let ps = profiles_of(docs.drop_last());
        match profile_of(docs.last()) {
            Some(p) => if has_refid(ps, p.refid) {
                ps
            } else {
                ps.push(p)
            },
            None => ps,
        }
    }
}

/// Profiles are listed once per refid: no two listed profiles share a
/// refid, every version 7 profile's refid is listed, and the profile listed
/// for a refid is the first one the documents give for it.
pub proof fn profiles_are_unique_by_refid(docs: Seq<NedbDoc>)
    ensures
        forall|i: int, j: int|
            0 <= i < j < profiles_of(docs).len() ==> #[trigger] profiles_of(docs)[i].refid
                != #[trigger] profiles_of(docs)[j].refid,
        forall|k: int|
            0 <= k < docs.len() && #[trigger] profile_of(docs[k]) is Some ==> has_refid(
                profiles_of(docs),
                profile_of(docs[k]).unwrap().refid,
            ),
        forall|i: int|
            #![trigger profiles_of(docs)[i]]
            0 <= i < profiles_of(docs).len() ==> exists|k: int|
                0 <= k < docs.len() && profile_of(#[trigger] docs[k]) == Some(
                    profiles_of(docs)[i],
                ) && forall|m: int|
                    0 <= m < k && #[trigger] profile_of(docs[m]) is Some ==> profile_of(
                        docs[m],
                    ).unwrap().refid != profiles_of(docs)[i].refid,
    decreases docs.len(),
{
    if docs.len() > 0 {
        let prev = docs.drop_last();
        profiles_are_unique_by_refid(prev);
        let ps = profiles_of(prev);
        let out = profiles_of(docs);
        assert forall|k: int|
            0 <= k < docs.len() && #[trigger] profile_of(docs[k]) is Some implies has_refid(
            out,
            profile_of(docs[k]).unwrap().refid,
        ) by {
            let r = profile_of(docs[k]).unwrap().refid;
            if k < docs.len() - 1 {
                assert(docs[k] == prev[k]);
                assert(has_refid(ps, r));
                let w = choose|w: int| 0 <= w < ps.len() && ps[w].refid == r;
                assert(out[w] == ps[w]);
            } else {
                if !has_refid(ps, r) {
                    assert(out[ps.len() as int].refid == r);
                }
                else {
                    let w = choose|w: int| 0 <= w < ps.len() && ps[w].refid == r;
                    assert(out[w] == ps[w]);
                }
            }
        }
        assert forall|i: int| #![trigger out[i]] 0 <= i < out.len() implies exists|k: int|
            0 <= k < docs.len() && profile_of(#[trigger] docs[k]) == Some(out[i]) && forall|m: int|
                0 <= m < k && #[trigger] profile_of(docs[m]) is Some ==> profile_of(
                    docs[m],
                ).unwrap().refid != out[i].refid by {
            if i < ps.len() {
                assert(out[i] == ps[i]);
                let k = choose|k: int|
                    0 <= k < prev.len() && profile_of(#[trigger] prev[k]) == Some(ps[i])
                        && forall|m: int|
                        0 <= m < k && #[trigger] profile_of(prev[m]) is Some ==> profile_of(
                            prev[m],
                        ).unwrap().refid != ps[i].refid;
                assert(docs[k] == prev[k]);
                assert forall|m: int|
                    0 <= m < k && #[trigger] profile_of(docs[m]) is Some implies profile_of(
                        docs[m],
                    ).unwrap().refid != out[i].refid by {
                    assert(docs[m] == prev[m]);
                }
            } else {
                let k = docs.len() - 1;
                assert(profile_of(docs[k]) == Some(out[i]));
                assert forall|m: int|
                    0 <= m < k && #[trigger] profile_of(docs[m]) is Some implies profile_of(
                        docs[m],
                    ).unwrap().refid != out[i].refid by {
                    assert(docs[m] == prev[m]);
                    if profile_of(docs[m]).unwrap().refid == out[i].refid {
                        assert(has_refid(ps, out[i].refid));
                    }
                }
            }
        }
    }
}

fn profile_from(d: &NedbDoc) -> (r: Option<Profile>)
    ensures
        match r {
            Some(p) => profile_of(*d) == Some(p@),
            None => profile_of(*d) is None,
        },
{
    if !doc_in_collection(d, "profile") {
        return None;
    }
    match &d.refid {
        None => None,
        Some(r) => {
            let name = match &d.name {
                Some(n) => n.clone(),
                None => String::from_str("UNKNOWN"),
            };
            let sdvx_id = match d.id {
                Some(i) => i,
                None => 0,
            };
            Some(Profile { refid: r.clone(), name, sdvx_id })
        },
    }
}

/// The version 7 player profiles, one per refid, the first one of each.
pub fn extract_profiles(docs: &[NedbDoc]) -> (r: Vec<Profile>)
    ensures
        r@.map_values(|p: Profile| p@) == profiles_of(docs@),
{
    let mut seen: StringHashMap<()> = StringHashMap::new();
    let mut profiles: Vec<Profile> = Vec::new();
    let mut k: usize = 0;
    while k < docs.len()
        invariant
            k <= docs@.len(),
            profiles@.map_values(|p: Profile| p@) == profiles_of(docs@.take(k as int)),
            forall|r: Seq<char>|
                seen@.contains_key(r) == has_refid(profiles_of(docs@.take(k as int)), r),
        decreases docs@.len() - k,
    {
        assert(docs@.take(k + 1).drop_last() == docs@.take(k as int));
        assert(docs@.take(k + 1).last() == docs@[k as int]);
        let ghost ps = profiles_of(docs@.take(k as int));
        match profile_from(&docs[k]) {
            Some(p) => {
                if !seen.contains_key(p.refid.as_str()) {
                    let key = p.refid.clone();
                    let ghost old_seen = seen@;
                    seen.insert(key, ());
                    let ghost pv = p@;
                    profiles.push(p);
                    assert(profiles@.map_values(|p: Profile| p@) =~= ps.push(pv));
                    assert forall|r: Seq<char>|
                        seen@.contains_key(r) == has_refid(ps.push(pv), r) by {
                        if r == pv.refid {
                            assert(ps.push(pv)[ps.len() as int].refid == r);
                        } else {
                            assert(seen@.contains_key(r) == old_seen.contains_key(r));
                            if has_refid(ps, r) {
                                let i = choose|i: int| 0 <= i < ps.len() && ps[i].refid == r;
                                assert(ps.push(pv)[i] == ps[i]);
                            }
                            if has_refid(ps.push(pv), r) {
                                let i = choose|i: int|
                                    0 <= i < ps.push(pv).len() && ps.push(pv)[i].refid == r;
                                assert(ps[i].refid == r);
                            }
                        }
                    }
                }
            },
            None => {},
        }
        k = k + 1;
    }
    assert(docs@.take(docs@.len() as int) == docs@);
    profiles
}

/// The number of version 7 `music` documents of the player `refid`.
pub open spec fn score_count(docs: Seq<NedbDoc>, refid: Seq<char>) -> nat
    decreases docs.len(),
{
    if docs.len() == 0 {
        0
    } else {
        let d = docs.last();
        score_count(docs.drop_last(), refid) + if in_collection(d, "music"@) && opt_text(d.refid)
            == Some(refid) {
            1nat
        } else {
            0nat
        }
    }
}

pub proof fn lemma_score_count_bound(docs: Seq<NedbDoc>, refid: Seq<char>)
    ensures
        score_count(docs, refid) <= docs.len(),
    decreases docs.len(),
{
    if docs.len() > 0 {
        lemma_score_count_bound(docs.drop_last(), refid);
    }
}

/// The number of version 7 score documents of each player that has any.
/// The score count of each player that has scores.
pub open spec fn score_counts(docs: Seq<NedbDoc>) -> Map<Seq<char>, usize> {
    Map::new(|r: Seq<char>| score_count(docs, r) > 0, |r: Seq<char>| score_count(docs, r) as usize)
}

/// Counts the version 7 score documents of each player.
pub fn count_version7_scores(docs: &[NedbDoc]) -> (counts: StringHashMap<usize>)
    ensures
        counts@ == score_counts(docs@),
{
    let mut counts: StringHashMap<usize> = StringHashMap::new();
    let n = docs.len();
    let mut k: usize = 0;
    while k < docs.len()
        invariant
            k <= docs@.len(),
            docs@.len() <= usize::MAX,
            forall|r: Seq<char>|
                #![trigger counts@.contains_key(r)]
                (counts@.contains_key(r) <==> score_count(docs@.take(k as int), r) > 0) && (
                counts@.contains_key(r) ==> counts@[r] == score_count(docs@.take(k as int), r)),
        decreases docs@.len() - k,
    {
        let ghost before = docs@.take(k as int);
        let ghost now = docs@.take(k + 1);
        assert(now.drop_last() == before);
        assert(now.last() == docs@[k as int]);
        let d = &docs[k];
        if doc_in_collection(d, "music") {
            match &d.refid {
                Some(r) => {
                    proof {
                        lemma_score_count_bound(before, r@);
                    }
                    let c = match counts.get(r.as_str()) {
                        Some(c) => *c,
                        None => 0,
                    };
                    counts.insert(r.clone(), c + 1);
                },
                None => {},
            }
        }
        k = k + 1;
    }
    assert(docs@.take(docs@.len() as int) == docs@);
    proof {
        assert forall|r: Seq<char>| #[trigger] counts@.contains_key(r) implies counts@[r]
            == score_counts(docs@)[r] by {
            lemma_score_count_bound(docs@, r);
        }
        assert(counts@ =~= score_counts(docs@));
    }
    counts
}

/// The record a document holds for the player `refid`: a version 7 `music`
/// document of that player with `mid` and `type`; the other numbers default
/// to 0, and each number is cut to its field's width as `as` does.
pub open spec fn record_of(d: NedbDoc, refid: Seq<char>) -> Option<MusicRecord> {
    if in_collection(d, "music"@) && opt_text(d.refid) == Some(refid) {
        match (d.mid, d.chart_type) {
            (Some(mid), Some(t)) => Some(
                MusicRecord {
                    mid: mid as u32,
                    chart_type: t as u8,
                    score: match d.score {
                        Some(x) => x as u32,
                        None => 0,
                    },
                    clear: match d.clear {
                        Some(x) => x as u8,
                        None => 0,
                    },
                    grade: match d.grade {
                        Some(x) => x as u8,
                        None => 0,
                    },
                    volforce: match d.volforce {
                        Some(x) => x as u32,
                        None => 0,
                    },
                },
            ),
            _ => None,
        }
    } else {
        None
    }
}

/// The records of the documents, in order.
pub open spec fn records_of(docs: Seq<NedbDoc>, refid: Seq<char>) -> Seq<MusicRecord>
    decreases docs.len(),
{
    if docs.len() == 0 {
        Seq::empty()
    } else {
        match record_of(docs.last(), refid) {
            Some(r) => records_of(docs.drop_last(), refid).push(r),
            None => records_of(docs.drop_last(), refid),
        }
    }
}

/// The version 7 records of the player `refid`, in document order.
pub fn extract_music_records(docs: &[NedbDoc], refid: &str) -> (r: Vec<MusicRecord>)
    ensures
        r@ == records_of(docs@, refid@),
{
    let mut out: Vec<MusicRecord> = Vec::new();
    let mut k: usize = 0;
    while k < docs.len()
        invariant
            k <= docs@.len(),
            out@ == records_of(docs@.take(k as int), refid@),
        decreases docs@.len() - k,
    {
        assert(docs@.take(k + 1).drop_last() == docs@.take(k as int));
        assert(docs@.take(k + 1).last() == docs@[k as int]);
        let d = &docs[k];
        let mine = match &d.refid {
            Some(r) => crate::text::same_text(r.as_str(), refid),
            None => false,
        };
        if doc_in_collection(d, "music") && mine {
            match (d.mid, d.chart_type) {
                (Some(mid), Some(t)) => {
                    let score = match d.score {
                        Some(x) => x as u32,
                        None => 0,
                    };
                    let clear = match d.clear {
                        Some(x) => x as u8,
                        None => 0,
                    };
                    let grade = match d.grade {
                        Some(x) => x as u8,
                        None => 0,
                    };
                    let volforce = match d.volforce {
                        Some(x) => x as u32,
                        None => 0,
                    };
                    out.push(
                        MusicRecord {
                            mid: mid as u32,
                            chart_type: t as u8,
                            score,
                            clear,
                            grade,
                            volforce,
                        },
                    );
                },
                _ => {},
            }
        }
        k = k + 1;
    }
    assert(docs@.take(docs@.len() as int) == docs@);
    out
}

} // verus!

verus! {

/// Whether two records are of the same song and chart.
pub open spec fn same_chart(a: MusicRecord, b: MusicRecord) -> bool {
    a.mid == b.mid && a.chart_type == b.chart_type
}

/// The first position at or after `from` whose record is of `r`'s chart.
pub open spec fn chart_index(g: Seq<MusicRecord>, r: MusicRecord, from: int) -> Option<int>
    decreases g.len() - from,
{
    if from < 0 || from >= g.len() {
        None
    } else if same_chart(g[from], r) {
        Some(from)
    } else {
        chart_index(g, r, from + 1)
    }
}

/// `cur` with the best score, grade and clear lamp of `cur` and `r`.
pub open spec fn merge_record(cur: MusicRecord, r: MusicRecord) -> MusicRecord {
    MusicRecord {
        score: if r.score > cur.score {
            r.score
        } else {
            cur.score
        },
        clear: better_lamp(cur.clear, r.clear),
        grade: if r.grade > cur.grade {
            r.grade
        } else {
            cur.grade
        },
        ..cur
    }
}

/// The records merged per chart, charts in order of first appearance.
pub open spec fn aggregate(records: Seq<MusicRecord>) -> Seq<MusicRecord>
    decreases records.len(),
{
    if records.len() == 0 {
        Seq::empty()
    } else {
        let g = aggregate(records.drop_last());
        let r = records.last();
        match chart_index(g, r, 0) {
            Some(i) => g.update(i, merge_record(g[i], r)),
            None => g.push(r),
        }
    }
}

proof fn lemma_chart_index(g: Seq<MusicRecord>, r: MusicRecord, from: int)
    requires
        0 <= from,
    ensures
        chart_index(g, r, from) matches Some(i) ==> from <= i < g.len() && same_chart(g[i], r),
        chart_index(g, r, from) is None ==> forall|j: int|
            from <= j < g.len() ==> !same_chart(#[trigger] g[j], r),
    decreases g.len() - from,
{
    if from < g.len() && !same_chart(g[from], r) {
        lemma_chart_index(g, r, from + 1);
    }
}

/// The map key of a record's song and chart.
pub open spec fn chart_key(r: MusicRecord) -> u64 {
    (r.mid as u64 * 256 + r.chart_type as u64) as u64
}

proof fn lemma_chart_key(a: MusicRecord, b: MusicRecord)
    ensures
        chart_key(a) == chart_key(b) <==> same_chart(a, b),
{
    let (am, at, bm, bt) = (a.mid as int, a.chart_type as int, b.mid as int, b.chart_type as int);
    assert(am * 256 + at == bm * 256 + bt ==> am == bm && at == bt) by (nonlinear_arith)
        requires
            0 <= at < 256,
            0 <= bt < 256,
    ;
}

/// Merges records of the same song and chart: one record per chart, with
/// the best score, the best grade and the best clear lamp among them, in
/// order of first appearance; the other fields come from the first record.
pub fn aggregate_music_records(records: Vec<MusicRecord>) -> (out: Vec<MusicRecord>)
    ensures
        out@ == aggregate(records@),
{
    broadcast use vstd::std_specs::hash::group_hash_axioms;

    let mut out: Vec<MusicRecord> = Vec::new();
    let mut by_chart: HashMap<u64, usize> = HashMap::new();
    let mut k: usize = 0;
    while k < records.len()
        invariant
            k <= records@.len(),
            out@ == aggregate(records@.take(k as int)),
            forall|j: int|
                0 <= j < out@.len() ==> by_chart@.contains_key(#[trigger] chart_key(out@[j]))
                    && by_chart@[chart_key(out@[j])] == j,
            forall|key: u64|
                #[trigger] by_chart@.contains_key(key) ==> by_chart@[key] < out@.len() && chart_key(
                    out@[by_chart@[key] as int],
                ) == key,
        decreases records@.len() - k,
    {
        assert(records@.take(k + 1).drop_last() == records@.take(k as int));
        assert(records@.take(k + 1).last() == records@[k as int]);
        let r = records[k];
        let key = r.mid as u64 * 256 + r.chart_type as u64;
        assert(key == chart_key(r));
        proof {
            lemma_chart_index(out@, r, 0);
            aggregate_keeps_charts_apart(records@.take(k as int));
        }
        match by_chart.get(&key) {
            Some(i) => {
                let i = *i;
                proof {
                    lemma_chart_key(out@[i as int], r);
                    let c = chart_index(out@, r, 0).unwrap();
                    lemma_chart_key(out@[c], r);
                    if c != i {
                        if c < i {
                            assert(!same_chart(out@[c], out@[i as int]));
                        } else {
                            assert(!same_chart(out@[i as int], out@[c]));
                        }
                    }
                }
                let cur = out[i];
                let merged = MusicRecord {
                    score: if r.score > cur.score {
                        r.score
                    } else {
                        cur.score
                    },
                    clear: better_clear(cur.clear, r.clear),
                    grade: if r.grade > cur.grade {
                        r.grade
                    } else {
                        cur.grade
                    },
                    ..cur
                };
                out.set(i, merged);
                assert(chart_key(merged) == chart_key(cur));
            },
            None => {
                proof {
                    if chart_index(out@, r, 0) is Some {
                        let c = chart_index(out@, r, 0).unwrap();
                        lemma_chart_key(out@[c], r);
                    }
                }
                let ghost n = out@.len();
                out.push(r);
                by_chart.insert(key, out.len() - 1);
                proof {
                    assert forall|j: int| 0 <= j < out@.len() implies by_chart@.contains_key(
                        #[trigger] chart_key(out@[j]),
                    ) && by_chart@[chart_key(out@[j])] == j by {
                        if j < n {
                            lemma_chart_key(out@[j], r);
                        }
                    }
                }
            },
        }
        k = k + 1;
    }
    assert(records@.take(records@.len() as int) == records@);
    out
}

/// `a` is of `b`'s chart and at least as good in score, grade and clear lamp.
pub open spec fn dominates(a: MusicRecord, b: MusicRecord) -> bool {
    &&& same_chart(a, b)
    &&& a.score >= b.score
    &&& a.grade >= b.grade
    &&& clear_coefficient(a.clear) >= clear_coefficient(b.clear)
}

/// Some record of `rs` is of `a`'s chart with `a`'s score.
pub open spec fn score_from(rs: Seq<MusicRecord>, a: MusicRecord) -> bool {
    exists|k: int| 0 <= k < rs.len() && same_chart(#[trigger] rs[k], a) && rs[k].score == a.score
}

/// Some record of `rs` is of `a`'s chart with `a`'s grade.
pub open spec fn grade_from(rs: Seq<MusicRecord>, a: MusicRecord) -> bool {
    exists|k: int| 0 <= k < rs.len() && same_chart(#[trigger] rs[k], a) && rs[k].grade == a.grade
}

/// Some record of `rs` is of `a`'s chart with `a`'s clear lamp.
pub open spec fn clear_from(rs: Seq<MusicRecord>, a: MusicRecord) -> bool {
    exists|k: int| 0 <= k < rs.len() && same_chart(#[trigger] rs[k], a) && rs[k].clear == a.clear
}

/// Merging keeps different charts apart: no two merged records are of the
/// same song and chart.
pub proof fn aggregate_keeps_charts_apart(records: Seq<MusicRecord>)
    ensures
        forall|i: int, j: int|
            0 <= i < j < aggregate(records).len() ==> !same_chart(
                #[trigger] aggregate(records)[i],
                #[trigger] aggregate(records)[j],
            ),
    decreases records.len(),
{
    if records.len() > 0 {
        let prev = records.drop_last();
        aggregate_keeps_charts_apart(prev);
        let g = aggregate(prev);
        let r = records.last();
        let out = aggregate(records);
        lemma_chart_index(g, r, 0);
        match chart_index(g, r, 0) {
            Some(i) => {
                assert(out == g.update(i, merge_record(g[i], r)));
                assert forall|a: int, b: int| 0 <= a < b < out.len() implies !same_chart(
                    #[trigger] out[a],
                    #[trigger] out[b],
                ) by {
                    assert(same_chart(out[a], g[a]));
                    assert(same_chart(out[b], g[b]));
                    assert(!same_chart(g[a], g[b]));
                }
            },
            None => {
                assert(out == g.push(r));
                assert forall|a: int, b: int| 0 <= a < b < out.len() implies !same_chart(
                    #[trigger] out[a],
                    #[trigger] out[b],
                ) by {
                    if b == g.len() {
                        assert(!same_chart(g[a], r));
                    } else {
                        assert(!same_chart(g[a], g[b]));
                    }
                }
            },
        }
    }
}

/// Merging keeps the best of duplicates: every record has a merged record of
/// its chart with at least its score, its grade and its clear coefficient.
pub proof fn aggregate_keeps_the_best(records: Seq<MusicRecord>)
    ensures
        forall|k: int|
            0 <= k < records.len() ==> exists|i: int|
                0 <= i < aggregate(records).len() && dominates(
                    #[trigger] aggregate(records)[i],
                    #[trigger] records[k],
                ),
    decreases records.len(),
{
    if records.len() > 0 {
        let prev = records.drop_last();
        aggregate_keeps_the_best(prev);
        let g = aggregate(prev);
        let r = records.last();
        let n = records.len() - 1;
        let out = aggregate(records);
        lemma_chart_index(g, r, 0);
        match chart_index(g, r, 0) {
            Some(i) => {
                assert(out == g.update(i, merge_record(g[i], r)));
                assert forall|k: int| 0 <= k < records.len() implies exists|j: int|
                    0 <= j < out.len() && dominates(#[trigger] out[j], #[trigger] records[k]) by {
                    if k == n {
                        assert(dominates(out[i], records[k]));
                    } else {
                        assert(records[k] == prev[k]);
                        let j = choose|j: int| 0 <= j < g.len() && dominates(g[j], prev[k]);
                        assert(dominates(out[j], records[k]));
                    }
                }
            },
            None => {
                assert(out == g.push(r));
                assert forall|k: int| 0 <= k < records.len() implies exists|j: int|
                    0 <= j < out.len() && dominates(#[trigger] out[j], #[trigger] records[k]) by {
                    if k == n {
                        assert(dominates(out[g.len() as int], records[k]));
                    } else {
                        assert(records[k] == prev[k]);
                        let j = choose|j: int| 0 <= j < g.len() && dominates(g[j], prev[k]);
                        assert(dominates(out[j], records[k]));
                    }
                }
            },
        }
    }
}

proof fn lemma_from_prefix(prev: Seq<MusicRecord>, records: Seq<MusicRecord>, a: MusicRecord)
    requires
        records.len() > 0,
        prev == records.drop_last(),
        score_from(prev, a) && grade_from(prev, a) && clear_from(prev, a),
    ensures
        score_from(records, a) && grade_from(records, a) && clear_from(records, a),
{
    let s = choose|s: int| 0 <= s < prev.len() && same_chart(prev[s], a) && prev[s].score == a.score;
    assert(records[s] == prev[s]);
    let t = choose|t: int| 0 <= t < prev.len() && same_chart(prev[t], a) && prev[t].grade == a.grade;
    assert(records[t] == prev[t]);
    let c = choose|c: int| 0 <= c < prev.len() && same_chart(prev[c], a) && prev[c].clear == a.clear;
    assert(records[c] == prev[c]);
}

proof fn lemma_merge_from(
    prev: Seq<MusicRecord>,
    records: Seq<MusicRecord>,
    cur: MusicRecord,
)
    requires
        records.len() > 0,
        prev == records.drop_last(),
        same_chart(cur, records.last()),
        score_from(prev, cur) && grade_from(prev, cur) && clear_from(prev, cur),
    ensures
        score_from(records, merge_record(cur, records.last())),
        grade_from(records, merge_record(cur, records.last())),
        clear_from(records, merge_record(cur, records.last())),
{
    let r = records.last();
    let n = records.len() - 1;
    let m = merge_record(cur, r);
    assert(records[n] == r);
    if r.score > cur.score {
        assert(same_chart(records[n], m) && records[n].score == m.score);
    } else {
        let s = choose|s: int|
            0 <= s < prev.len() && same_chart(prev[s], cur) && prev[s].score == cur.score;
        assert(records[s] == prev[s]);
        assert(same_chart(records[s], m) && records[s].score == m.score);
    }
    if r.grade > cur.grade {
        assert(same_chart(records[n], m) && records[n].grade == m.grade);
    } else {
        let t = choose|t: int|
            0 <= t < prev.len() && same_chart(prev[t], cur) && prev[t].grade == cur.grade;
        assert(records[t] == prev[t]);
        assert(same_chart(records[t], m) && records[t].grade == m.grade);
    }
    if m.clear == r.clear {
        assert(same_chart(records[n], m) && records[n].clear == m.clear);
    } else {
        let c = choose|c: int|
            0 <= c < prev.len() && same_chart(prev[c], cur) && prev[c].clear == cur.clear;
        assert(records[c] == prev[c]);
        assert(same_chart(records[c], m) && records[c].clear == m.clear);
    }
}

/// Merging invents nothing: the score, the grade and the clear lamp of each
/// merged record each come from some record of its chart.
pub proof fn aggregate_takes_values_from_records(records: Seq<MusicRecord>)
    ensures
        forall|i: int|
            0 <= i < aggregate(records).len() ==> score_from(records, #[trigger] aggregate(records)[i])
                && grade_from(records, aggregate(records)[i]) && clear_from(
                records,
                aggregate(records)[i],
            ),
    decreases records.len(),
{
    if records.len() > 0 {
        let prev = records.drop_last();
        aggregate_takes_values_from_records(prev);
        let g = aggregate(prev);
        let r = records.last();
        let n = records.len() - 1;
        let out = aggregate(records);
        lemma_chart_index(g, r, 0);
        match chart_index(g, r, 0) {
            Some(i) => {
                assert(out == g.update(i, merge_record(g[i], r)));
                assert forall|a: int| 0 <= a < out.len() implies score_from(
                    records,
                    #[trigger] out[a],
                ) && grade_from(records, out[a]) && clear_from(records, out[a]) by {
                    if a != i {
                        assert(out[a] == g[a]);
                        lemma_from_prefix(prev, records, g[a]);
                    } else {
                        lemma_merge_from(prev, records, g[i]);
                    }
                }
            },
            None => {
                assert(out == g.push(r));
                assert forall|a: int| 0 <= a < out.len() implies score_from(
                    records,
                    #[trigger] out[a],
                ) && grade_from(records, out[a]) && clear_from(records, out[a]) by {
                    if a == g.len() {
                        assert(records[n] == r);
                        assert(same_chart(records[n], out[a]));
                    } else {
                        assert(out[a] == g[a]);
                        lemma_from_prefix(prev, records, g[a]);
                    }
                }
            },
        }
    }
}

} // verus!
