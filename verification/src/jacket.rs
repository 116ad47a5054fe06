//! Jacket images: which file names are jackets, which jacket a chart shows,
//! and data URLs for the images.
use vstd::prelude::*;
use crate::models::opt_text;
use crate::text::{decimal, is_digit, lemma_decimal_digits, lemma_decimal_parses, lemma_split_on_append,
    lemma_split_on_push_separator, append_str, chars_of, parse_unsigned, parse_unsigned_chars, same_text,
    slice_chars, split_char, split_on, string_of};
use std::collections::HashMap;
use vstd::string::StringExecFns;
use vstd::string::StringSliceAdditionalSpecFns;
use base64::Engine;

verus! {

broadcast use vstd::std_specs::hash::group_hash_axioms;

/// The standard Base64 alphabet.
pub open spec fn base64_char(v: nat) -> char {
    if v < 26 {
        ((65 + v) as u8) as char
    } else if v < 52 {
        ((71 + v) as u8) as char
    } else if v < 62 {
        ((v - 4) as u8) as char
    } else if v == 62 {
        '+'
    } else {
        '/'
    }
}

/// Standard Base64 with padding (RFC 4648, section 4), three bytes to four
/// characters.
pub open spec fn base64_of(d: Seq<u8>) -> Seq<char>
    decreases d.len(),
{
    if d.len() == 0 {
        Seq::empty()
    } else if d.len() == 1 {
        let a = d[0] as nat;
        seq![base64_char(a / 4), base64_char((a % 4) * 16), '=', '=']
    } else if d.len() == 2 {
        let a = d[0] as nat;
        let b = d[1] as nat;
        seq![base64_char(a / 4), base64_char((a % 4) * 16 + b / 16), base64_char((b % 16) * 4), '=']
    } else {
        let a = d[0] as nat;
        let b = d[1] as nat;
        let c = d[2] as nat;
        seq![
            base64_char(a / 4),
            base64_char((a % 4) * 16 + b / 16),
            base64_char((b % 16) * 4 + c / 64),
            base64_char(c % 64),
        ] + base64_of(d.skip(3))
    }
}

/// Encodes bytes with the `base64` crate's `STANDARD` engine: the standard
/// alphabet with `=` padding, as RFC 4648 section 4 defines it.
#[verifier::external_body]
fn base64_encode(data: &[u8]) -> (r: String)
    ensures
        r@ == base64_of(data@),
{
    base64::engine::general_purpose::STANDARD.encode(data)
}

/// A `data:` URL of the given media type holding `data`.
pub open spec fn data_url(mime: Seq<char>, data: Seq<u8>) -> Seq<char> {
    "data:"@ + mime + ";base64,"@ + base64_of(data)
}

pub fn image_data_url(mime: &str, data: &[u8]) -> (r: String)
    ensures
        r@ == data_url(mime@, data@),
{
    let mut out = String::from_str("data:");
    append_str(&mut out, mime);
    append_str(&mut out, ";base64,");
    let b = base64_encode(data);
    append_str(&mut out, b.as_str());
    assert(out@ =~= data_url(mime@, data@));
    out
}

/// The data URL of a PNG jacket.
pub fn png_data_url(data: &[u8]) -> (r: String)
    ensures
        r@ == data_url("image/png"@, data@),
{
    image_data_url("image/png", data)
}

/// The image shown for a chart that has no jacket.
pub const PLACEHOLDER_SVG: &'static str = "<svg xmlns=\"http://www.w3.org/2000/svg\" width=\"128\" height=\"128\" viewBox=\"0 0 128 128\"><rect width=\"128\" height=\"128\" fill=\"#e5e7eb\"/><rect x=\"12\" y=\"12\" width=\"104\" height=\"104\" rx=\"10\" fill=\"#f8fafc\" stroke=\"#cbd5e1\" stroke-width=\"4\"/><text x=\"64\" y=\"59\" text-anchor=\"middle\" font-family=\"Arial,sans-serif\" font-size=\"14\" font-weight=\"700\" fill=\"#64748b\">NO</text><text x=\"64\" y=\"78\" text-anchor=\"middle\" font-family=\"Arial,sans-serif\" font-size=\"14\" font-weight=\"700\" fill=\"#64748b\">JACKET</text></svg>";

pub fn placeholder_data_url() -> (r: String)
    ensures
        r@ == data_url("image/svg+xml"@, PLACEHOLDER_SVG.spec_bytes()),
{
    image_data_url("image/svg+xml", PLACEHOLDER_SVG.as_bytes())
}

/// The image a card shows: the jacket's PNG bytes when a jacket was found
/// and read, else the placeholder.
pub fn jacket_or_placeholder(image: Option<&[u8]>) -> (r: String)
    ensures
        r@ == match image {
            Some(bytes) => data_url("image/png"@, bytes@),
            None => data_url("image/svg+xml"@, PLACEHOLDER_SVG.spec_bytes()),
        },
{
    match image {
        Some(bytes) => png_data_url(bytes),
        None => placeholder_data_url(),
    }
}

/// The song and jacket number that a file name `jk_<mid>_<n>.png` gives.
pub open spec fn jacket_name(name: Seq<char>) -> Option<(u32, u8)> {
    let suffix = ".png"@;
    if name.len() >= suffix.len() && name.skip(name.len() - suffix.len()) == suffix {
        let parts = split_on(name.take(name.len() - suffix.len()), '_');
        if parts.len() == 3 && parts[0] == "jk"@ {
            match (parse_unsigned(parts[1], u32::MAX as nat), parse_unsigned(parts[2], 255)) {
                (Some(mid), Some(n)) => Some((mid as u32, n as u8)),
                _ => None,
            }
        } else {
            None
        }
    } else {
        None
    }
}

pub fn parse_jacket_file_name(name: &str) -> (r: Option<(u32, u8)>)
    ensures
        r == jacket_name(name@),
{
    let v = chars_of(name);
    proof {
        reveal_strlit(".png");
    }
    let n = v.len();
    if n < 4 || v[n - 4] != '.' || v[n - 3] != 'p' || v[n - 2] != 'n' || v[n - 1] != 'g' {
        assert(n >= 4 ==> v@.skip(n - 4) != ".png"@ || (v[n - 4] == '.' && v[n - 3] == 'p'
            && v[n - 2] == 'n' && v[n - 1] == 'g')) by {
            if n >= 4 && v@.skip(n - 4) == ".png"@ {
                assert(v@.skip(n - 4)[0] == v@[n - 4]);
                assert(v@.skip(n - 4)[1] == v@[n - 3]);
                assert(v@.skip(n - 4)[2] == v@[n - 2]);
                assert(v@.skip(n - 4)[3] == v@[n - 1]);
            }
        }
        return None;
    }
    assert(v@.skip(n - 4) =~= ".png"@);
    let stem_chars = slice_chars(&v, 0, n - 4);
    assert(stem_chars@ == v@.take(n - 4));
    let stem = string_of(stem_chars.as_slice());
    let parts = split_char(stem.as_str(), '_');
    if parts.len() != 3 {
        return None;
    }
    proof {
        reveal_strlit("jk");
    }
    if !(parts[0].len() == 2 && parts[0][0] == 'j' && parts[0][1] == 'k') {
        assert(parts@[0]@ != "jk"@) by {
            if parts@[0]@ == "jk"@ {
                assert(parts@[0]@[0] == 'j');
            }
        }
        return None;
    }
    assert(parts@[0]@ =~= "jk"@);
    match (parse_unsigned_chars(&parts[1], 4294967295u64), parse_unsigned_chars(&parts[2], 255u64)) {
        (Some(mid), Some(num)) => Some((mid as u32, num as u8)),
        _ => None,
    }
}

/// The file name of jacket number `n` of song `mid`: `jk_<mid>_<n>.png`.
pub open spec fn jacket_file_name(mid: nat, n: nat) -> Seq<char> {
    "jk_"@ + decimal(mid) + "_"@ + decimal(n) + ".png"@
}

/// A jacket file name is read back as the song and number it was made of.
pub proof fn jacket_file_names_read_back(mid: u32, n: u8)
    ensures
        jacket_name(jacket_file_name(mid as nat, n as nat)) == Some((mid, n)),
{
    let dm = decimal(mid as nat);
    let dn = decimal(n as nat);
    let name = jacket_file_name(mid as nat, n as nat);
    let stem = "jk_"@ + dm + "_"@ + dn;
    lemma_decimal_digits(mid as nat);
    lemma_decimal_digits(n as nat);
    lemma_decimal_parses(mid as nat, u32::MAX as nat);
    lemma_decimal_parses(n as nat, 255);
    assert(!dm.contains('_')) by {
        if dm.contains('_') {
            let i = choose|i: int| 0 <= i < dm.len() && dm[i] == '_';
            assert(is_digit(dm[i]));
        }
    }
    assert(!dn.contains('_')) by {
        if dn.contains('_') {
            let i = choose|i: int| 0 <= i < dn.len() && dn[i] == '_';
            assert(is_digit(dn[i]));
        }
    }
    reveal_strlit("jk_");
    reveal_strlit("_");
    reveal_strlit(".png");
    assert(name.len() >= 4);
    assert(name.skip(name.len() - 4) =~= ".png"@);
    assert(name.take(name.len() - 4) =~= stem);
    let jk = seq!['j', 'k'];
    assert(!jk.contains('_'));
    lemma_split_on_append(Seq::empty(), jk, '_');
    assert(Seq::<char>::empty() + jk =~= jk);
    assert(split_on(Seq::<char>::empty(), '_') =~= seq![Seq::<char>::empty()]);
    assert(split_on(jk, '_') =~= seq![jk]);
    lemma_split_on_push_separator(jk, '_');
    let a = jk.push('_');
    lemma_split_on_append(a, dm, '_');
    assert(split_on(a + dm, '_') =~= seq![jk, dm]);
    lemma_split_on_push_separator(a + dm, '_');
    let b = (a + dm).push('_');
    lemma_split_on_append(b, dn, '_');
    assert(split_on(b + dn, '_') =~= seq![jk, dm, dn]);
    assert(b + dn =~= stem);
    assert(jk =~= "jk"@) by {
        reveal_strlit("jk");
    }
}

/// Whether `path` is the jacket that chart target `target` of song `mid`
/// shows: the chosen one among the song's jackets, or none when the song has
/// no jacket.
pub open spec fn shows_jacket(
    path: Option<Seq<char>>,
    jackets: Map<u32, Vec<JacketEntry>>,
    mid: u32,
    target: u8,
) -> bool {
    match path {
        Some(p) => jackets.contains_key(mid) && exists|i: int|
            chosen_jacket(jacket_numbers(jackets[mid]@), target, i) && jackets[mid]@[i].path@ == p,
        None => !jackets.contains_key(mid) || jackets[mid]@.len() == 0,
    }
}

/// A jacket image file and its number.
pub struct JacketEntry {
    pub number: u8,
    pub path: String,
}

/// The position of the jacket that a chart with target number `target`
/// shows: among the jackets numbered at most `target`, the last one with the
/// largest number; when there is none, the first one with the smallest
/// number.
pub open spec fn chosen_jacket(numbers: Seq<u8>, target: u8, i: int) -> bool {
    &&& 0 <= i < numbers.len()
    &&& if exists|j: int| 0 <= j < numbers.len() && numbers[j] <= target {
        &&& numbers[i] <= target
        &&& forall|j: int| 0 <= j < numbers.len() && numbers[j] <= target ==> numbers[j] <= numbers[i]
        &&& forall|j: int| i < j < numbers.len() && numbers[j] <= target ==> numbers[j] < numbers[i]
    } else {
        &&& forall|j: int| 0 <= j < numbers.len() ==> numbers[i] <= numbers[j]
        &&& forall|j: int| 0 <= j < i ==> numbers[i] < numbers[j]
    }
}

/// The numbers of a list of jackets.
pub open spec fn jacket_numbers(entries: Seq<JacketEntry>) -> Seq<u8> {
    entries.map_values(|e: JacketEntry| e.number)
}

/// Picks the jacket a chart shows among a song's jackets.
pub fn select_jacket(entries: &Vec<JacketEntry>, target: u8) -> (r: Option<usize>)
    ensures
        match r {
            Some(i) => chosen_jacket(jacket_numbers(entries@), target, i as int),
            None => entries@.len() == 0,
        },
{
    let ghost nums = jacket_numbers(entries@);
    let mut best: Option<usize> = None;
    let mut k: usize = 0;
    while k < entries.len()
        invariant
            k <= entries@.len(),
            nums == jacket_numbers(entries@),
            nums.len() == entries@.len(),
            match best {
                Some(i) => {
                    &&& i < k
                    &&& nums[i as int] <= target
                    &&& forall|j: int| 0 <= j < k && nums[j] <= target ==> nums[j] <= nums[i as int]
                    &&& forall|j: int| i < j < k && nums[j] <= target ==> nums[j] < nums[i as int]
                },
                None => forall|j: int| 0 <= j < k ==> nums[j] > target,
            },
        decreases entries@.len() - k,
    {
        let n = entries[k].number;
        assert(nums[k as int] == n);
        if n <= target {
            match best {
                Some(i) => {
                    if n >= entries[i].number {
                        best = Some(k);
                    }
                },
                None => {
                    best = Some(k);
                },
            }
        }
        k = k + 1;
    }
    match best {
        Some(i) => Some(i),
        None => {
            if entries.len() == 0 {
                return None;
            }
            let mut m: usize = 0;
            let mut k: usize = 1;
            while k < entries.len()
                invariant
                    1 <= k <= entries@.len(),
                    m < k,
                    nums == jacket_numbers(entries@),
                    nums.len() == entries@.len(),
                    forall|j: int| 0 <= j < k ==> nums[m as int] <= nums[j],
                    forall|j: int| 0 <= j < m ==> nums[m as int] < nums[j],
                decreases entries@.len() - k,
            {
                assert(nums[k as int] == entries@[k as int].number);
                if entries[k].number < entries[m].number {
                    m = k;
                }
                k = k + 1;
            }
            Some(m)
        },
    }
}

/// The jackets found under the music folder, by song.
pub struct JacketIndex {
    pub jackets: HashMap<u32, Vec<JacketEntry>>,
}

/// The views of a list of jackets.
pub open spec fn entry_views(s: Seq<JacketEntry>) -> Seq<(u8, Seq<char>)> {
    s.map_values(|e: JacketEntry| entry_view(e))
}

/// `s` with `e` put after every jacket whose number is not larger than
/// `e`'s, before the first larger one.
pub open spec fn insert_by_number(s: Seq<(u8, Seq<char>)>, e: (u8, Seq<char>)) -> Seq<
    (u8, Seq<char>),
>
    decreases s.len(),
{
    if s.len() == 0 {
        seq![e]
    } else if e.0 < s[0].0 {
        seq![e] + s
    } else {
        seq![s[0]] + insert_by_number(s.drop_first(), e)
    }
}

/// Jackets sorted by number; jackets with the same number keep their order.
pub open spec fn sort_by_number(s: Seq<(u8, Seq<char>)>) -> Seq<(u8, Seq<char>)>
    decreases s.len(),
{
    if s.len() == 0 {
        Seq::empty()
    } else {
        insert_by_number(sort_by_number(s.drop_last()), s.last())
    }
}

/// Whether the jacket numbers do not decrease along `s`.
pub open spec fn numbers_ascend(s: Seq<(u8, Seq<char>)>) -> bool {
    forall|i: int, j: int| 0 <= i < j < s.len() ==> #[trigger] s[i].0 <= #[trigger] s[j].0
}

proof fn lemma_insert_at_first_larger(s: Seq<(u8, Seq<char>)>, e: (u8, Seq<char>), i: int)
    requires
        0 <= i <= s.len(),
        forall|j: int| 0 <= j < i ==> (#[trigger] s[j]).0 <= e.0,
        i < s.len() ==> e.0 < s[i].0,
    ensures
        insert_by_number(s, e) == s.insert(i, e),
    decreases s.len(),
{
    if s.len() == 0 {
        assert(s.insert(i, e) =~= seq![e]);
    } else if e.0 < s[0].0 {
        assert(i == 0);
        assert(s.insert(0, e) =~= seq![e] + s);
    } else {
        let rest = s.drop_first();
        assert(i >= 1);
        assert forall|j: int| 0 <= j < i - 1 implies (#[trigger] rest[j]).0 <= e.0 by {
            assert(rest[j] == s[j + 1]);
        }
        lemma_insert_at_first_larger(rest, e, i - 1);
        assert(seq![s[0]] + rest.insert(i - 1, e) =~= s.insert(i, e));
    }
}

proof fn lemma_insert_by_number(s: Seq<(u8, Seq<char>)>, e: (u8, Seq<char>))
    requires
        numbers_ascend(s),
    ensures
        numbers_ascend(insert_by_number(s, e)),
        insert_by_number(s, e).to_multiset() == s.to_multiset().insert(e),
        insert_by_number(s, e).len() == s.len() + 1,
    decreases s.len(),
{
    broadcast use vstd::seq_lib::group_to_multiset_ensures;

    let t = insert_by_number(s, e);
    if s.len() == 0 {
        assert(t =~= Seq::<(u8, Seq<char>)>::empty().push(e));
    } else if e.0 < s[0].0 {
        assert(t =~= s.insert(0, e));
        vstd::seq_lib::to_multiset_insert(s, 0, e);
    } else {
        let rest = s.drop_first();
        assert(numbers_ascend(rest)) by {
            assert forall|i: int, j: int| 0 <= i < j < rest.len() implies #[trigger] rest[i].0
                <= #[trigger] rest[j].0 by {
                assert(rest[i] == s[i + 1] && rest[j] == s[j + 1]);
            }
        }
        lemma_insert_by_number(rest, e);
        let u = insert_by_number(rest, e);
        assert(t =~= u.insert(0, s[0]));
        vstd::seq_lib::to_multiset_insert(u, 0, s[0]);
        assert(s =~= rest.insert(0, s[0]));
        vstd::seq_lib::to_multiset_insert(rest, 0, s[0]);
        assert forall|i: int, j: int| 0 <= i < j < t.len() implies #[trigger] t[i].0
            <= #[trigger] t[j].0 by {
            if i == 0 {
                assert(t[j] == u[j - 1]);
                assert(u.to_multiset().count(u[j - 1]) > 0);
                assert(u.contains(u[j - 1]));
                if u[j - 1] != e {
                    assert(rest.to_multiset().count(u[j - 1]) > 0);
                    assert(rest.contains(u[j - 1]));
                    let w = choose|w: int| 0 <= w < rest.len() && rest[w] == u[j - 1];
                    assert(rest[w] == s[w + 1]);
                }
            } else {
                assert(t[i] == u[i - 1] && t[j] == u[j - 1]);
            }
        }
    }
}

/// A song's jackets sorted by number hold the same jackets, and their
/// numbers do not decrease.
pub proof fn jacket_lists_are_sorted_and_complete(s: Seq<(u8, Seq<char>)>)
    ensures
        numbers_ascend(sort_by_number(s)),
        sort_by_number(s).to_multiset() == s.to_multiset(),
    decreases s.len(),
{
    broadcast use vstd::seq_lib::group_to_multiset_ensures;

    if s.len() > 0 {
        jacket_lists_are_sorted_and_complete(s.drop_last());
        lemma_insert_by_number(sort_by_number(s.drop_last()), s.last());
        assert(s =~= s.drop_last().push(s.last()));
    }
}

impl JacketIndex {
    pub fn new() -> (r: JacketIndex)
        ensures
            r.jackets@ == Map::<u32, Vec<JacketEntry>>::empty(),
    {
        JacketIndex { jackets: HashMap::new() }
    }

    /// Adds a jacket of song `mid` among the ones it already has, after all
    /// jackets whose number is not larger; a song's jackets that are in
    /// number order stay so.
    pub fn add(&mut self, mid: u32, entry: JacketEntry)
        ensures
            final(self).jackets@.dom() == old(self).jackets@.dom().insert(mid),
            forall|m: u32|
                m != mid && #[trigger] old(self).jackets@.contains_key(m) ==> final(self).jackets@[m]
                    == old(self).jackets@[m],
            entry_views(final(self).jackets@[mid]@) == insert_by_number(
                if old(self).jackets@.contains_key(mid) {
                    entry_views(old(self).jackets@[mid]@)
                } else {
                    Seq::empty()
                },
                entry_view(entry),
            ),
    {
        let mut list = match self.jackets.remove(&mid) {
            Some(v) => v,
            None => Vec::new(),
        };
        let ghost before = list@;
        let mut i: usize = 0;
        while i < list.len() && list[i].number <= entry.number
            invariant
                i <= list@.len(),
                list@ == before,
                forall|j: int| 0 <= j < i ==> (#[trigger] list@[j]).number <= entry.number,
            decreases list@.len() - i,
        {
            i = i + 1;
        }
        proof {
            lemma_insert_at_first_larger(entry_views(before), entry_view(entry), i as int);
        }
        let ghost ev = entry_view(entry);
        list.insert(i, entry);
        assert(entry_views(list@) =~= entry_views(before).insert(i as int, ev));
        self.jackets.insert(mid, list);
        assert(final(self).jackets@.dom() =~= old(self).jackets@.dom().insert(mid));
    }

    /// The path of the jacket that chart target `target` of song `mid`
    /// shows, if the song has jackets.
    pub fn select(&self, mid: u32, target: u8) -> (r: Option<String>)
        ensures
            shows_jacket(opt_text(r), self.jackets@, mid, target),
    {
        match self.jackets.get(&mid) {
            None => None,
            Some(entries) => match select_jacket(entries, target) {
                None => None,
                Some(i) => Some(entries[i].path.clone()),
            },
        }
    }
}

/// A jacket as the specifications see it: its number and path.
pub open spec fn entry_view(e: JacketEntry) -> (u8, Seq<char>) {
    (e.number, e.path@)
}

/// The jackets of song `mid` among image files given as (file name, path),
/// in the order the files come.
pub open spec fn jacket_files(files: Seq<(String, String)>, mid: u32) -> Seq<(u8, Seq<char>)>
    decreases files.len(),
{
    if files.len() == 0 {
        Seq::empty()
    } else {
        let prev = jacket_files(files.drop_last(), mid);
        match jacket_name(files.last().0@) {
            Some((m, n)) => if m == mid {
                prev.push((n, files.last().1@))
            } else {
                prev
            },
            None => prev,
        }
    }
}

/// Indexes the jacket images among the files of the song folders, given as
/// (file name, path): a song has an entry when a file is named as one of
/// its jackets, and its jackets come sorted by number, those with the same
/// number in file order.
pub fn scan_jackets(files: &Vec<(String, String)>) -> (index: JacketIndex)
    ensures
        forall|mid: u32|
            #![trigger index.jackets@.contains_key(mid)]
            (index.jackets@.contains_key(mid) <==> jacket_files(files@, mid).len() > 0) && (
            index.jackets@.contains_key(mid) ==> {
                let v = entry_views(index.jackets@[mid]@);
                &&& v == sort_by_number(jacket_files(files@, mid))
                &&& numbers_ascend(v)
                &&& v.to_multiset() == jacket_files(files@, mid).to_multiset()
            }),
{
    let mut index = JacketIndex::new();
    let mut k: usize = 0;
    while k < files.len()
        invariant
            k <= files@.len(),
            forall|mid: u32|
                #![trigger index.jackets@.contains_key(mid)]
                (index.jackets@.contains_key(mid) <==> jacket_files(files@.take(k as int), mid).len()
                    > 0) && (index.jackets@.contains_key(mid) ==> entry_views(index.jackets@[mid]@)
                    == sort_by_number(jacket_files(files@.take(k as int), mid))),
        decreases files@.len() - k,
    {
        let ghost before = files@.take(k as int);
        let ghost now = files@.take(k + 1);
        assert(now.drop_last() == before);
        assert(now.last() == files@[k as int]);
        match parse_jacket_file_name(files[k].0.as_str()) {
            Some((mid, number)) => {
                let ghost old_index = index.jackets@;
                let entry = JacketEntry { number, path: files[k].1.clone() };
                let ghost ev = entry_view(entry);
                index.add(mid, entry);
                proof {
                    assert(jacket_files(now, mid) == jacket_files(before, mid).push(ev));
                    assert(jacket_files(now, mid).drop_last() == jacket_files(before, mid));
                    if !old_index.contains_key(mid) {
                        assert(jacket_files(before, mid).len() == 0);
                        assert(jacket_files(before, mid) =~= Seq::<(u8, Seq<char>)>::empty());
                    }
                    assert forall|m: u32| #[trigger] index.jackets@.contains_key(m) <==> jacket_files(
                        now,
                        m,
                    ).len() > 0 by {
                        if m != mid {
                            assert(index.jackets@.contains_key(m) == old_index.contains_key(m));
                        }
                    }
                    assert forall|m: u32| #[trigger] index.jackets@.contains_key(m) implies entry_views(
                        index.jackets@[m]@,
                    ) == sort_by_number(jacket_files(now, m)) by {
                        if m != mid {
                            assert(jacket_files(now, m) == jacket_files(before, m));
                        } else {
                            assert(sort_by_number(jacket_files(now, mid)) == insert_by_number(
                                sort_by_number(jacket_files(before, mid)),
                                ev,
                            ));
                        }
                    }
                }
            },
            None => {},
        }
        k = k + 1;
    }
    assert(files@.take(files@.len() as int) == files@);
    proof {
        assert forall|mid: u32| #[trigger] index.jackets@.contains_key(mid) implies {
            let v = entry_views(index.jackets@[mid]@);
            &&& numbers_ascend(v)
            &&& v.to_multiset() == jacket_files(files@, mid).to_multiset()
        } by {
            jacket_lists_are_sorted_and_complete(jacket_files(files@, mid));
        }
    }
    index
}

/// The target jacket number of a chart: its chart type plus one, at most 255.
pub open spec fn jacket_target(chart_type: u8) -> u8 {
    if chart_type == 255 {
        255
    } else {
        (chart_type + 1) as u8
    }
}

/// Each chart looks for the jacket numbered one above its chart type (255
/// at most), so different charts below 255 look for different jackets, in
/// the order of their chart types.
pub proof fn jacket_targets_count_up(t: u8, u: u8)
    ensures
        t < 255 ==> jacket_target(t) as int == t as int + 1,
        jacket_target(255) == 255,
        t < u ==> jacket_target(t) <= jacket_target(u),
        t < u < 255 ==> jacket_target(t) < jacket_target(u),
{
}

pub fn target_for_chart(chart_type: u8) -> (r: u8)
    ensures
        r == jacket_target(chart_type),
        r as int == if chart_type < 255 {
            chart_type as int + 1
        } else {
            255
        },
{
    chart_type.saturating_add(1)
}

} // verus!
