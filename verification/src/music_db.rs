//! The music database: `others/music_db.xml`, in Shift_JIS with a few
//! characters that the game encodes in its own way.
use vstd::prelude::*;
use crate::models::{MusicEntry, MusicEntryView};
use crate::text::{clear_of, differ, lemma_apply_replacements_absent, lemma_apply_replacements_clears, matches_at, occurs,
    append_str, apply_replacements, chars_of, decimal, decimal_string, parse_unsigned,
    parse_unsigned_chars, replace_chars, string_of,
};
use crate::xml::{child, child_of, child_text, child_text_of, has_tag, node_attribute,
    node_has_tag, attribute_of, parse_xml, xml_document, XmlNode, lemma_first_child_in_range};
use std::collections::HashMap;
use vstd::string::StringExecFns;

use crate::paths::{joined, path_join};

verus! {

broadcast use vstd::std_specs::hash::group_hash_axioms;

/// Which of the checks on the game data folder fails first, given what the
/// file system reports: the folder itself, `others/music_db.xml`, `music/`.
pub open spec fn data_dir_verdict(is_dir: bool, has_music_db: bool, has_music_dir: bool) -> Result<
    (),
    Seq<char>,
> {
    if !is_dir {
        Err("The selected game data path is not a directory."@)
    } else if !has_music_db {
        Err("Missing others/music_db.xml under the selected game data path."@)
    } else if !has_music_dir {
        Err("Missing music directory under the selected game data path."@)
    } else {
        Ok(())
    }
}

/// Checks the game data folder, given what the file system reports of it.
pub fn validate_data_dir(is_dir: bool, has_music_db: bool, has_music_dir: bool) -> (r: Result<
    (),
    String,
>)
    ensures
        match r {
            Ok(()) => data_dir_verdict(is_dir, has_music_db, has_music_dir) == Ok::<(), Seq<char>>(()),
            Err(e) => data_dir_verdict(is_dir, has_music_db, has_music_dir) == Err::<(), Seq<char>>(e@),
        },
{
    if !is_dir {
        Err(String::from_str("The selected game data path is not a directory."))
    } else if !has_music_db {
        Err(String::from_str("Missing others/music_db.xml under the selected game data path."))
    } else if !has_music_dir {
        Err(String::from_str("Missing music directory under the selected game data path."))
    } else {
        Ok(())
    }
}

/// The music database file under the game data folder `data_dir`.
pub fn music_db_path(data_dir: &str) -> (r: String)
    ensures
        r@ == joined(joined(data_dir@, "others"@), "music_db.xml"@),
{
    let others = path_join(data_dir, "others");
    path_join(others.as_str(), "music_db.xml")
}

/// The folder of song folders under the game data folder `data_dir`.
pub fn music_dir_path(data_dir: &str) -> (r: String)
    ensures
        r@ == joined(data_dir@, "music"@),
{
    path_join(data_dir, "music")
}

/// The characters that the game's Shift_JIS text uses in place of others,
/// and what they stand for, in the order they are replaced.
pub open spec fn special_chars() -> Seq<(Seq<char>, Seq<char>)> {
    seq![
        ("龕"@, "€"@),
        ("釁"@, "🍄"@),
        ("驩"@, "Ø"@),
        ("曦"@, "à"@),
        ("齷"@, "é"@),
        ("骭"@, "ü"@),
        ("齶"@, "♡"@),
        ("彜"@, "ū"@),
        ("罇"@, "ê"@),
        ("雋"@, "Ǜ"@),
        ("鬻"@, "♃"@),
        ("鬥"@, "Ã"@),
        ("鬆"@, "Ý"@),
        ("曩"@, "è"@),
        ("驫"@, "ā"@),
        ("齲"@, "♥"@),
        ("騫"@, "á"@),
        ("趁"@, "Ǣ"@),
        ("鬮"@, "¡"@),
        ("盥"@, "⚙︎"@),
        ("隍"@, "︎Ü"@),
        ("頽"@, "ä"@),
        ("餮"@, "Ƶ"@),
        ("黻"@, "*"@),
        ("蔕"@, "ũ"@),
        ("闃"@, "Ā"@),
        ("饌"@, "²"@),
        ("煢"@, "ø"@),
        ("鑷"@, "ゔ"@),
        ("=墸Σ"@, "=͟͟͞ Σ"@),
        ("鹹"@, "Ĥ"@),
        ("瀑i"@, "Ài"@),
        ("疉"@, "Ö"@),
        ("鑒"@, "₩"@),
        ("Ryu??"@, "Ryu☆"@),
    ]
}

fn special_char_list() -> (v: Vec<(&'static str, &'static str)>)
    ensures
        v@.len() == special_chars().len(),
        forall|k: int|
            0 <= k < v@.len() ==> (#[trigger] v@[k]).0@ == special_chars()[k].0 && v@[k].1@
                == special_chars()[k].1,
{
    vec![
        ("龕", "€"),
        ("釁", "🍄"),
        ("驩", "Ø"),
        ("曦", "à"),
        ("齷", "é"),
        ("骭", "ü"),
        ("齶", "♡"),
        ("彜", "ū"),
        ("罇", "ê"),
        ("雋", "Ǜ"),
        ("鬻", "♃"),
        ("鬥", "Ã"),
        ("鬆", "Ý"),
        ("曩", "è"),
        ("驫", "ā"),
        ("齲", "♥"),
        ("騫", "á"),
        ("趁", "Ǣ"),
        ("鬮", "¡"),
        ("盥", "⚙︎"),
        ("隍", "︎Ü"),
        ("頽", "ä"),
        ("餮", "Ƶ"),
        ("黻", "*"),
        ("蔕", "ũ"),
        ("闃", "Ā"),
        ("饌", "²"),
        ("煢", "ø"),
        ("鑷", "ゔ"),
        ("=墸Σ", "=͟͟͞ Σ"),
        ("鹹", "Ĥ"),
        ("瀑i", "Ài"),
        ("疉", "Ö"),
        ("鑒", "₩"),
        ("Ryu??", "Ryu☆"),
    ]
}

/// Puts back the characters that the game's text encodes in its own way,
/// one replacement after the other.
pub fn translate_special_chars(input: &str) -> (out: String)
    ensures
        out@ == apply_replacements(input@, special_chars()),
{
    let list = special_char_list();
    let mut v = chars_of(input);
    let mut k: usize = 0;
    assert(special_chars().skip(0) == special_chars());
    while k < list.len()
        invariant
            k <= list@.len(),
            list@.len() == special_chars().len(),
            forall|j: int|
                0 <= j < list@.len() ==> (#[trigger] list@[j]).0@ == special_chars()[j].0
                    && list@[j].1@ == special_chars()[j].1,
            apply_replacements(input@, special_chars()) == apply_replacements(
                v@,
                special_chars().skip(k as int),
            ),
        decreases list@.len() - k,
    {
        let (from, to) = list[k];
        assert(special_chars().skip(k as int)[0] == special_chars()[k as int]);
        assert(special_chars().skip(k as int).drop_first() == special_chars().skip(k + 1));
        let p = chars_of(from);
        let r = chars_of(to);
        v = replace_chars(&v, &p, &r);
        k = k + 1;
    }
    string_of(v.as_slice())
}

/// Whether `c` is a CJK unified ideograph, as the single-character keys of
/// the replacement table are.
spec fn cjk(c: char) -> bool {
    0x4E00 <= (c as u32) <= 0x9FFF
}

spec fn no_cjk(r: Seq<char>) -> bool {
    forall|i: int| 0 <= i < r.len() ==> !cjk(#[trigger] r[i])
}

spec fn key_text(k: int) -> Seq<char> {
    if k == 0 {
        seq!['\u{9f95}']
    } else if k == 1 {
        seq!['\u{91c1}']
    } else if k == 2 {
        seq!['\u{9a69}']
    } else if k == 3 {
        seq!['\u{66e6}']
    } else if k == 4 {
        seq!['\u{9f77}']
    } else if k == 5 {
        seq!['\u{9aad}']
    } else if k == 6 {
        seq!['\u{9f76}']
    } else if k == 7 {
        seq!['\u{5f5c}']
    } else if k == 8 {
        seq!['\u{7f47}']
    } else if k == 9 {
        seq!['\u{96cb}']
    } else if k == 10 {
        seq!['\u{9b3b}']
    } else if k == 11 {
        seq!['\u{9b25}']
    } else if k == 12 {
        seq!['\u{9b06}']
    } else if k == 13 {
        seq!['\u{66e9}']
    } else if k == 14 {
        seq!['\u{9a6b}']
    } else if k == 15 {
        seq!['\u{9f72}']
    } else if k == 16 {
        seq!['\u{9a2b}']
    } else if k == 17 {
        seq!['\u{8d81}']
    } else if k == 18 {
        seq!['\u{9b2e}']
    } else if k == 19 {
        seq!['\u{76e5}']
    } else if k == 20 {
        seq!['\u{968d}']
    } else if k == 21 {
        seq!['\u{983d}']
    } else if k == 22 {
        seq!['\u{992e}']
    } else if k == 23 {
        seq!['\u{9efb}']
    } else if k == 24 {
        seq!['\u{8515}']
    } else if k == 25 {
        seq!['\u{95c3}']
    } else if k == 26 {
        seq!['\u{994c}']
    } else if k == 27 {
        seq!['\u{7162}']
    } else if k == 28 {
        seq!['\u{9477}']
    } else if k == 29 {
        seq!['\u{3d}', '\u{58b8}', '\u{3a3}']
    } else if k == 30 {
        seq!['\u{9e79}']
    } else if k == 31 {
        seq!['\u{7011}', '\u{69}']
    } else if k == 32 {
        seq!['\u{7589}']
    } else if k == 33 {
        seq!['\u{9452}']
    } else if k == 34 {
        seq!['\u{52}', '\u{79}', '\u{75}', '\u{3f}', '\u{3f}']
    } else {
        Seq::empty()
    }
}

spec fn replacement_text(k: int) -> Seq<char> {
    if k == 0 {
        seq!['\u{20ac}']
    } else if k == 1 {
        seq!['\u{1f344}']
    } else if k == 2 {
        seq!['\u{d8}']
    } else if k == 3 {
        seq!['\u{e0}']
    } else if k == 4 {
        seq!['\u{e9}']
    } else if k == 5 {
        seq!['\u{fc}']
    } else if k == 6 {
        seq!['\u{2661}']
    } else if k == 7 {
        seq!['\u{16b}']
    } else if k == 8 {
        seq!['\u{ea}']
    } else if k == 9 {
        seq!['\u{1db}']
    } else if k == 10 {
        seq!['\u{2643}']
    } else if k == 11 {
        seq!['\u{c3}']
    } else if k == 12 {
        seq!['\u{dd}']
    } else if k == 13 {
        seq!['\u{e8}']
    } else if k == 14 {
        seq!['\u{101}']
    } else if k == 15 {
        seq!['\u{2665}']
    } else if k == 16 {
        seq!['\u{e1}']
    } else if k == 17 {
        seq!['\u{1e2}']
    } else if k == 18 {
        seq!['\u{a1}']
    } else if k == 19 {
        seq!['\u{2699}', '\u{fe0e}']
    } else if k == 20 {
        seq!['\u{fe0e}', '\u{dc}']
    } else if k == 21 {
        seq!['\u{e4}']
    } else if k == 22 {
        seq!['\u{1b5}']
    } else if k == 23 {
        seq!['\u{2a}']
    } else if k == 24 {
        seq!['\u{169}']
    } else if k == 25 {
        seq!['\u{100}']
    } else if k == 26 {
        seq!['\u{b2}']
    } else if k == 27 {
        seq!['\u{f8}']
    } else if k == 28 {
        seq!['\u{3094}']
    } else if k == 29 {
        seq!['\u{3d}', '\u{35f}', '\u{35f}', '\u{35e}', '\u{20}', '\u{3a3}']
    } else if k == 30 {
        seq!['\u{124}']
    } else if k == 31 {
        seq!['\u{c0}', '\u{69}']
    } else if k == 32 {
        seq!['\u{d6}']
    } else if k == 33 {
        seq!['\u{20a9}']
    } else if k == 34 {
        seq!['\u{52}', '\u{79}', '\u{75}', '\u{2606}']
    } else {
        Seq::empty()
    }
}

proof fn lemma_table_texts()
    ensures
        special_chars().len() == 35,
        forall|k: int|
            0 <= k < 35 ==> #[trigger] special_chars()[k].0 == key_text(k) && special_chars()[k].1
                == replacement_text(k),
{
    reveal_strlit("龕");
    reveal_strlit("釁");
    reveal_strlit("驩");
    reveal_strlit("曦");
    reveal_strlit("齷");
    reveal_strlit("骭");
    reveal_strlit("齶");
    reveal_strlit("彜");
    reveal_strlit("罇");
    reveal_strlit("雋");
    reveal_strlit("鬻");
    reveal_strlit("鬥");
    reveal_strlit("鬆");
    reveal_strlit("曩");
    reveal_strlit("驫");
    reveal_strlit("齲");
    reveal_strlit("騫");
    reveal_strlit("趁");
    reveal_strlit("鬮");
    reveal_strlit("盥");
    reveal_strlit("隍");
    reveal_strlit("頽");
    reveal_strlit("餮");
    reveal_strlit("黻");
    reveal_strlit("蔕");
    reveal_strlit("闃");
    reveal_strlit("饌");
    reveal_strlit("煢");
    reveal_strlit("鑷");
    reveal_strlit("=墸Σ");
    reveal_strlit("鹹");
    reveal_strlit("瀑i");
    reveal_strlit("疉");
    reveal_strlit("鑒");
    reveal_strlit("Ryu??");
    reveal_strlit("€");
    reveal_strlit("🍄");
    reveal_strlit("Ø");
    reveal_strlit("à");
    reveal_strlit("é");
    reveal_strlit("ü");
    reveal_strlit("♡");
    reveal_strlit("ū");
    reveal_strlit("ê");
    reveal_strlit("Ǜ");
    reveal_strlit("♃");
    reveal_strlit("Ã");
    reveal_strlit("Ý");
    reveal_strlit("è");
    reveal_strlit("ā");
    reveal_strlit("♥");
    reveal_strlit("á");
    reveal_strlit("Ǣ");
    reveal_strlit("¡");
    reveal_strlit("⚙︎");
    reveal_strlit("︎Ü");
    reveal_strlit("ä");
    reveal_strlit("Ƶ");
    reveal_strlit("*");
    reveal_strlit("ũ");
    reveal_strlit("Ā");
    reveal_strlit("²");
    reveal_strlit("ø");
    reveal_strlit("ゔ");
    reveal_strlit("=͟͟͞ Σ");
    reveal_strlit("Ĥ");
    reveal_strlit("Ài");
    reveal_strlit("Ö");
    reveal_strlit("₩");
    reveal_strlit("Ryu☆");
    assert forall|k: int| 0 <= k < 35 implies #[trigger] special_chars()[k].0 == key_text(k)
        && special_chars()[k].1 == replacement_text(k) by {
        if k == 0 {
            assert(special_chars()[0].0 =~= seq!['\u{9f95}']);
            assert(special_chars()[0].1 =~= seq!['\u{20ac}']);
        } else if k == 1 {
            assert(special_chars()[1].0 =~= seq!['\u{91c1}']);
            assert(special_chars()[1].1 =~= seq!['\u{1f344}']);
        } else if k == 2 {
            assert(special_chars()[2].0 =~= seq!['\u{9a69}']);
            assert(special_chars()[2].1 =~= seq!['\u{d8}']);
        } else if k == 3 {
            assert(special_chars()[3].0 =~= seq!['\u{66e6}']);
            assert(special_chars()[3].1 =~= seq!['\u{e0}']);
        } else if k == 4 {
            assert(special_chars()[4].0 =~= seq!['\u{9f77}']);
            assert(special_chars()[4].1 =~= seq!['\u{e9}']);
        } else if k == 5 {
            assert(special_chars()[5].0 =~= seq!['\u{9aad}']);
            assert(special_chars()[5].1 =~= seq!['\u{fc}']);
        } else if k == 6 {
            assert(special_chars()[6].0 =~= seq!['\u{9f76}']);
            assert(special_chars()[6].1 =~= seq!['\u{2661}']);
        } else if k == 7 {
            assert(special_chars()[7].0 =~= seq!['\u{5f5c}']);
            assert(special_chars()[7].1 =~= seq!['\u{16b}']);
        } else if k == 8 {
            assert(special_chars()[8].0 =~= seq!['\u{7f47}']);
            assert(special_chars()[8].1 =~= seq!['\u{ea}']);
        } else if k == 9 {
            assert(special_chars()[9].0 =~= seq!['\u{96cb}']);
            assert(special_chars()[9].1 =~= seq!['\u{1db}']);
        } else if k == 10 {
            assert(special_chars()[10].0 =~= seq!['\u{9b3b}']);
            assert(special_chars()[10].1 =~= seq!['\u{2643}']);
        } else if k == 11 {
            assert(special_chars()[11].0 =~= seq!['\u{9b25}']);
            assert(special_chars()[11].1 =~= seq!['\u{c3}']);
        } else if k == 12 {
            assert(special_chars()[12].0 =~= seq!['\u{9b06}']);
            assert(special_chars()[12].1 =~= seq!['\u{dd}']);
        } else if k == 13 {
            assert(special_chars()[13].0 =~= seq!['\u{66e9}']);
            assert(special_chars()[13].1 =~= seq!['\u{e8}']);
        } else if k == 14 {
            assert(special_chars()[14].0 =~= seq!['\u{9a6b}']);
            assert(special_chars()[14].1 =~= seq!['\u{101}']);
        } else if k == 15 {
            assert(special_chars()[15].0 =~= seq!['\u{9f72}']);
            assert(special_chars()[15].1 =~= seq!['\u{2665}']);
        } else if k == 16 {
            assert(special_chars()[16].0 =~= seq!['\u{9a2b}']);
            assert(special_chars()[16].1 =~= seq!['\u{e1}']);
        } else if k == 17 {
            assert(special_chars()[17].0 =~= seq!['\u{8d81}']);
            assert(special_chars()[17].1 =~= seq!['\u{1e2}']);
        } else if k == 18 {
            assert(special_chars()[18].0 =~= seq!['\u{9b2e}']);
            assert(special_chars()[18].1 =~= seq!['\u{a1}']);
        } else if k == 19 {
            assert(special_chars()[19].0 =~= seq!['\u{76e5}']);
            assert(special_chars()[19].1 =~= seq!['\u{2699}', '\u{fe0e}']);
        } else if k == 20 {
            assert(special_chars()[20].0 =~= seq!['\u{968d}']);
            assert(special_chars()[20].1 =~= seq!['\u{fe0e}', '\u{dc}']);
        } else if k == 21 {
            assert(special_chars()[21].0 =~= seq!['\u{983d}']);
            assert(special_chars()[21].1 =~= seq!['\u{e4}']);
        } else if k == 22 {
            assert(special_chars()[22].0 =~= seq!['\u{992e}']);
            assert(special_chars()[22].1 =~= seq!['\u{1b5}']);
        } else if k == 23 {
            assert(special_chars()[23].0 =~= seq!['\u{9efb}']);
            assert(special_chars()[23].1 =~= seq!['\u{2a}']);
        } else if k == 24 {
            assert(special_chars()[24].0 =~= seq!['\u{8515}']);
            assert(special_chars()[24].1 =~= seq!['\u{169}']);
        } else if k == 25 {
            assert(special_chars()[25].0 =~= seq!['\u{95c3}']);
            assert(special_chars()[25].1 =~= seq!['\u{100}']);
        } else if k == 26 {
            assert(special_chars()[26].0 =~= seq!['\u{994c}']);
            assert(special_chars()[26].1 =~= seq!['\u{b2}']);
        } else if k == 27 {
            assert(special_chars()[27].0 =~= seq!['\u{7162}']);
            assert(special_chars()[27].1 =~= seq!['\u{f8}']);
        } else if k == 28 {
            assert(special_chars()[28].0 =~= seq!['\u{9477}']);
            assert(special_chars()[28].1 =~= seq!['\u{3094}']);
        } else if k == 29 {
            assert(special_chars()[29].0 =~= seq!['\u{3d}', '\u{58b8}', '\u{3a3}']);
            assert(special_chars()[29].1 =~= seq!['\u{3d}', '\u{35f}', '\u{35f}', '\u{35e}', '\u{20}', '\u{3a3}']);
        } else if k == 30 {
            assert(special_chars()[30].0 =~= seq!['\u{9e79}']);
            assert(special_chars()[30].1 =~= seq!['\u{124}']);
        } else if k == 31 {
            assert(special_chars()[31].0 =~= seq!['\u{7011}', '\u{69}']);
            assert(special_chars()[31].1 =~= seq!['\u{c0}', '\u{69}']);
        } else if k == 32 {
            assert(special_chars()[32].0 =~= seq!['\u{7589}']);
            assert(special_chars()[32].1 =~= seq!['\u{d6}']);
        } else if k == 33 {
            assert(special_chars()[33].0 =~= seq!['\u{9452}']);
            assert(special_chars()[33].1 =~= seq!['\u{20a9}']);
        } else if k == 34 {
            assert(special_chars()[34].0 =~= seq!['\u{52}', '\u{79}', '\u{75}', '\u{3f}', '\u{3f}']);
            assert(special_chars()[34].1 =~= seq!['\u{52}', '\u{79}', '\u{75}', '\u{2606}']);
        }
    }
}

proof fn lemma_clear(q: Seq<char>, r: Seq<char>)
    requires
        q.len() > 0,
        r.len() > 0,
        differ(q, r),
        forall|i: int| 1 <= i < r.len() ==> r[i] != q[0],
        forall|j: int| 1 <= j < q.len() ==> q[j] != r[0],
    ensures
        clear_of(q, r),
{
    assert forall|i: int| 0 <= i < r.len() implies differ(q, #[trigger] r.skip(i)) by {
        if i == 0 {
            assert(r.skip(0) =~= r);
        } else {
            assert(r.skip(i)[0] == r[i]);
        }
    }
    assert forall|j: int| 1 <= j < q.len() implies differ(#[trigger] q.skip(j), r) by {
        assert(q.skip(j)[0] == q[j]);
    }
}

/// Every key of the replacement table is clear of the replacement texts from
/// its own on.
proof fn lemma_table_is_clear()
    ensures
        forall|k: int| 0 <= k < special_chars().len() ==> (#[trigger] special_chars()[k]).0.len() > 0,
        forall|j: int, k: int|
            0 <= j <= k < special_chars().len() ==> clear_of(
                #[trigger] special_chars()[j].0,
                #[trigger] special_chars()[k].1,
            ),
{
    lemma_table_texts();
    assert forall|k: int| 0 <= k < special_chars().len() implies (#[trigger] special_chars()[k]).0.len() > 0 by {
        if k == 0 {
            assert(key_text(k) =~= seq!['\u{9f95}']);
        } else if k == 1 {
            assert(key_text(k) =~= seq!['\u{91c1}']);
        } else if k == 2 {
            assert(key_text(k) =~= seq!['\u{9a69}']);
        } else if k == 3 {
            assert(key_text(k) =~= seq!['\u{66e6}']);
        } else if k == 4 {
            assert(key_text(k) =~= seq!['\u{9f77}']);
        } else if k == 5 {
            assert(key_text(k) =~= seq!['\u{9aad}']);
        } else if k == 6 {
            assert(key_text(k) =~= seq!['\u{9f76}']);
        } else if k == 7 {
            assert(key_text(k) =~= seq!['\u{5f5c}']);
        } else if k == 8 {
            assert(key_text(k) =~= seq!['\u{7f47}']);
        } else if k == 9 {
            assert(key_text(k) =~= seq!['\u{96cb}']);
        } else if k == 10 {
            assert(key_text(k) =~= seq!['\u{9b3b}']);
        } else if k == 11 {
            assert(key_text(k) =~= seq!['\u{9b25}']);
        } else if k == 12 {
            assert(key_text(k) =~= seq!['\u{9b06}']);
        } else if k == 13 {
            assert(key_text(k) =~= seq!['\u{66e9}']);
        } else if k == 14 {
            assert(key_text(k) =~= seq!['\u{9a6b}']);
        } else if k == 15 {
            assert(key_text(k) =~= seq!['\u{9f72}']);
        } else if k == 16 {
            assert(key_text(k) =~= seq!['\u{9a2b}']);
        } else if k == 17 {
            assert(key_text(k) =~= seq!['\u{8d81}']);
        } else if k == 18 {
            assert(key_text(k) =~= seq!['\u{9b2e}']);
        } else if k == 19 {
            assert(key_text(k) =~= seq!['\u{76e5}']);
        } else if k == 20 {
            assert(key_text(k) =~= seq!['\u{968d}']);
        } else if k == 21 {
            assert(key_text(k) =~= seq!['\u{983d}']);
        } else if k == 22 {
            assert(key_text(k) =~= seq!['\u{992e}']);
        } else if k == 23 {
            assert(key_text(k) =~= seq!['\u{9efb}']);
        } else if k == 24 {
            assert(key_text(k) =~= seq!['\u{8515}']);
        } else if k == 25 {
            assert(key_text(k) =~= seq!['\u{95c3}']);
        } else if k == 26 {
            assert(key_text(k) =~= seq!['\u{994c}']);
        } else if k == 27 {
            assert(key_text(k) =~= seq!['\u{7162}']);
        } else if k == 28 {
            assert(key_text(k) =~= seq!['\u{9477}']);
        } else if k == 29 {
            assert(key_text(k) =~= seq!['\u{3d}', '\u{58b8}', '\u{3a3}']);
        } else if k == 30 {
            assert(key_text(k) =~= seq!['\u{9e79}']);
        } else if k == 31 {
            assert(key_text(k) =~= seq!['\u{7011}', '\u{69}']);
        } else if k == 32 {
            assert(key_text(k) =~= seq!['\u{7589}']);
        } else if k == 33 {
            assert(key_text(k) =~= seq!['\u{9452}']);
        } else if k == 34 {
            assert(key_text(k) =~= seq!['\u{52}', '\u{79}', '\u{75}', '\u{3f}', '\u{3f}']);
        }
    }
    assert forall|j: int, k: int|
        0 <= j <= k < special_chars().len() implies clear_of(
        #[trigger] special_chars()[j].0,
        #[trigger] special_chars()[k].1,
    ) by {
        let q = key_text(j);
        let r = replacement_text(k);
        assert(r.len() > 0 && forall|i: int| 0 <= i < r.len() ==> !cjk(#[trigger] r[i])) by {
                if k == 0 {
                    assert(r =~= seq!['\u{20ac}']);
                } else if k == 1 {
                    assert(r =~= seq!['\u{1f344}']);
                } else if k == 2 {
                    assert(r =~= seq!['\u{d8}']);
                } else if k == 3 {
                    assert(r =~= seq!['\u{e0}']);
                } else if k == 4 {
                    assert(r =~= seq!['\u{e9}']);
                } else if k == 5 {
                    assert(r =~= seq!['\u{fc}']);
                } else if k == 6 {
                    assert(r =~= seq!['\u{2661}']);
                } else if k == 7 {
                    assert(r =~= seq!['\u{16b}']);
                } else if k == 8 {
                    assert(r =~= seq!['\u{ea}']);
                } else if k == 9 {
                    assert(r =~= seq!['\u{1db}']);
                } else if k == 10 {
                    assert(r =~= seq!['\u{2643}']);
                } else if k == 11 {
                    assert(r =~= seq!['\u{c3}']);
                } else if k == 12 {
                    assert(r =~= seq!['\u{dd}']);
                } else if k == 13 {
                    assert(r =~= seq!['\u{e8}']);
                } else if k == 14 {
                    assert(r =~= seq!['\u{101}']);
                } else if k == 15 {
                    assert(r =~= seq!['\u{2665}']);
                } else if k == 16 {
                    assert(r =~= seq!['\u{e1}']);
                } else if k == 17 {
                    assert(r =~= seq!['\u{1e2}']);
                } else if k == 18 {
                    assert(r =~= seq!['\u{a1}']);
                } else if k == 19 {
                    assert(r =~= seq!['\u{2699}', '\u{fe0e}']);
                } else if k == 20 {
                    assert(r =~= seq!['\u{fe0e}', '\u{dc}']);
                } else if k == 21 {
                    assert(r =~= seq!['\u{e4}']);
                } else if k == 22 {
                    assert(r =~= seq!['\u{1b5}']);
                } else if k == 23 {
                    assert(r =~= seq!['\u{2a}']);
                } else if k == 24 {
                    assert(r =~= seq!['\u{169}']);
                } else if k == 25 {
                    assert(r =~= seq!['\u{100}']);
                } else if k == 26 {
                    assert(r =~= seq!['\u{b2}']);
                } else if k == 27 {
                    assert(r =~= seq!['\u{f8}']);
                } else if k == 28 {
                    assert(r =~= seq!['\u{3094}']);
                } else if k == 29 {
                    assert(r =~= seq!['\u{3d}', '\u{35f}', '\u{35f}', '\u{35e}', '\u{20}', '\u{3a3}']);
                } else if k == 30 {
                    assert(r =~= seq!['\u{124}']);
                } else if k == 31 {
                    assert(r =~= seq!['\u{c0}', '\u{69}']);
                } else if k == 32 {
                    assert(r =~= seq!['\u{d6}']);
                } else if k == 33 {
                    assert(r =~= seq!['\u{20a9}']);
                } else if k == 34 {
                    assert(r =~= seq!['\u{52}', '\u{79}', '\u{75}', '\u{2606}']);
                }
        }
        if j == 29 {
            assert(q =~= seq!['\u{3d}', '\u{58b8}', '\u{3a3}']);
            assert(r[0] != '=' || k == 29) by {
                if k == 0 {
                    assert(r =~= seq!['\u{20ac}']);
                } else if k == 1 {
                    assert(r =~= seq!['\u{1f344}']);
                } else if k == 2 {
                    assert(r =~= seq!['\u{d8}']);
                } else if k == 3 {
                    assert(r =~= seq!['\u{e0}']);
                } else if k == 4 {
                    assert(r =~= seq!['\u{e9}']);
                } else if k == 5 {
                    assert(r =~= seq!['\u{fc}']);
                } else if k == 6 {
                    assert(r =~= seq!['\u{2661}']);
                } else if k == 7 {
                    assert(r =~= seq!['\u{16b}']);
                } else if k == 8 {
                    assert(r =~= seq!['\u{ea}']);
                } else if k == 9 {
                    assert(r =~= seq!['\u{1db}']);
                } else if k == 10 {
                    assert(r =~= seq!['\u{2643}']);
                } else if k == 11 {
                    assert(r =~= seq!['\u{c3}']);
                } else if k == 12 {
                    assert(r =~= seq!['\u{dd}']);
                } else if k == 13 {
                    assert(r =~= seq!['\u{e8}']);
                } else if k == 14 {
                    assert(r =~= seq!['\u{101}']);
                } else if k == 15 {
                    assert(r =~= seq!['\u{2665}']);
                } else if k == 16 {
                    assert(r =~= seq!['\u{e1}']);
                } else if k == 17 {
                    assert(r =~= seq!['\u{1e2}']);
                } else if k == 18 {
                    assert(r =~= seq!['\u{a1}']);
                } else if k == 19 {
                    assert(r =~= seq!['\u{2699}', '\u{fe0e}']);
                } else if k == 20 {
                    assert(r =~= seq!['\u{fe0e}', '\u{dc}']);
                } else if k == 21 {
                    assert(r =~= seq!['\u{e4}']);
                } else if k == 22 {
                    assert(r =~= seq!['\u{1b5}']);
                } else if k == 23 {
                    assert(r =~= seq!['\u{2a}']);
                } else if k == 24 {
                    assert(r =~= seq!['\u{169}']);
                } else if k == 25 {
                    assert(r =~= seq!['\u{100}']);
                } else if k == 26 {
                    assert(r =~= seq!['\u{b2}']);
                } else if k == 27 {
                    assert(r =~= seq!['\u{f8}']);
                } else if k == 28 {
                    assert(r =~= seq!['\u{3094}']);
                } else if k == 29 {
                    assert(r =~= seq!['\u{3d}', '\u{35f}', '\u{35f}', '\u{35e}', '\u{20}', '\u{3a3}']);
                } else if k == 30 {
                    assert(r =~= seq!['\u{124}']);
                } else if k == 31 {
                    assert(r =~= seq!['\u{c0}', '\u{69}']);
                } else if k == 32 {
                    assert(r =~= seq!['\u{d6}']);
                } else if k == 33 {
                    assert(r =~= seq!['\u{20a9}']);
                } else if k == 34 {
                    assert(r =~= seq!['\u{52}', '\u{79}', '\u{75}', '\u{2606}']);
                }
            }
            assert(differ(q, r)) by {
                if k == 29 {
                    assert(r[1] != q[1]);
                } else {
                    assert(r[0] != q[0]);
                }
            }
            lemma_clear(q, r);
        } else if j == 31 {
            assert(q =~= seq!['\u{7011}', '\u{69}']);
            assert(r[0] != 'i') by {
                if k == 0 {
                    assert(r =~= seq!['\u{20ac}']);
                } else if k == 1 {
                    assert(r =~= seq!['\u{1f344}']);
                } else if k == 2 {
                    assert(r =~= seq!['\u{d8}']);
                } else if k == 3 {
                    assert(r =~= seq!['\u{e0}']);
                } else if k == 4 {
                    assert(r =~= seq!['\u{e9}']);
                } else if k == 5 {
                    assert(r =~= seq!['\u{fc}']);
                } else if k == 6 {
                    assert(r =~= seq!['\u{2661}']);
                } else if k == 7 {
                    assert(r =~= seq!['\u{16b}']);
                } else if k == 8 {
                    assert(r =~= seq!['\u{ea}']);
                } else if k == 9 {
                    assert(r =~= seq!['\u{1db}']);
                } else if k == 10 {
                    assert(r =~= seq!['\u{2643}']);
                } else if k == 11 {
                    assert(r =~= seq!['\u{c3}']);
                } else if k == 12 {
                    assert(r =~= seq!['\u{dd}']);
                } else if k == 13 {
                    assert(r =~= seq!['\u{e8}']);
                } else if k == 14 {
                    assert(r =~= seq!['\u{101}']);
                } else if k == 15 {
                    assert(r =~= seq!['\u{2665}']);
                } else if k == 16 {
                    assert(r =~= seq!['\u{e1}']);
                } else if k == 17 {
                    assert(r =~= seq!['\u{1e2}']);
                } else if k == 18 {
                    assert(r =~= seq!['\u{a1}']);
                } else if k == 19 {
                    assert(r =~= seq!['\u{2699}', '\u{fe0e}']);
                } else if k == 20 {
                    assert(r =~= seq!['\u{fe0e}', '\u{dc}']);
                } else if k == 21 {
                    assert(r =~= seq!['\u{e4}']);
                } else if k == 22 {
                    assert(r =~= seq!['\u{1b5}']);
                } else if k == 23 {
                    assert(r =~= seq!['\u{2a}']);
                } else if k == 24 {
                    assert(r =~= seq!['\u{169}']);
                } else if k == 25 {
                    assert(r =~= seq!['\u{100}']);
                } else if k == 26 {
                    assert(r =~= seq!['\u{b2}']);
                } else if k == 27 {
                    assert(r =~= seq!['\u{f8}']);
                } else if k == 28 {
                    assert(r =~= seq!['\u{3094}']);
                } else if k == 29 {
                    assert(r =~= seq!['\u{3d}', '\u{35f}', '\u{35f}', '\u{35e}', '\u{20}', '\u{3a3}']);
                } else if k == 30 {
                    assert(r =~= seq!['\u{124}']);
                } else if k == 31 {
                    assert(r =~= seq!['\u{c0}', '\u{69}']);
                } else if k == 32 {
                    assert(r =~= seq!['\u{d6}']);
                } else if k == 33 {
                    assert(r =~= seq!['\u{20a9}']);
                } else if k == 34 {
                    assert(r =~= seq!['\u{52}', '\u{79}', '\u{75}', '\u{2606}']);
                }
            }
            assert(r[0] != q[0]);
            lemma_clear(q, r);
        } else if j == 34 {
            assert(q =~= seq!['\u{52}', '\u{79}', '\u{75}', '\u{3f}', '\u{3f}']);
            assert(k == 34);
            assert(r =~= seq!['\u{52}', '\u{79}', '\u{75}', '\u{2606}']);
            assert(r[3] != q[3]);
            lemma_clear(q, r);
        } else {
            assert(q.len() == 1 && cjk(q[0])) by {
                if j == 0 {
                    assert(q =~= seq!['\u{9f95}']);
                } else if j == 1 {
                    assert(q =~= seq!['\u{91c1}']);
                } else if j == 2 {
                    assert(q =~= seq!['\u{9a69}']);
                } else if j == 3 {
                    assert(q =~= seq!['\u{66e6}']);
                } else if j == 4 {
                    assert(q =~= seq!['\u{9f77}']);
                } else if j == 5 {
                    assert(q =~= seq!['\u{9aad}']);
                } else if j == 6 {
                    assert(q =~= seq!['\u{9f76}']);
                } else if j == 7 {
                    assert(q =~= seq!['\u{5f5c}']);
                } else if j == 8 {
                    assert(q =~= seq!['\u{7f47}']);
                } else if j == 9 {
                    assert(q =~= seq!['\u{96cb}']);
                } else if j == 10 {
                    assert(q =~= seq!['\u{9b3b}']);
                } else if j == 11 {
                    assert(q =~= seq!['\u{9b25}']);
                } else if j == 12 {
                    assert(q =~= seq!['\u{9b06}']);
                } else if j == 13 {
                    assert(q =~= seq!['\u{66e9}']);
                } else if j == 14 {
                    assert(q =~= seq!['\u{9a6b}']);
                } else if j == 15 {
                    assert(q =~= seq!['\u{9f72}']);
                } else if j == 16 {
                    assert(q =~= seq!['\u{9a2b}']);
                } else if j == 17 {
                    assert(q =~= seq!['\u{8d81}']);
                } else if j == 18 {
                    assert(q =~= seq!['\u{9b2e}']);
                } else if j == 19 {
                    assert(q =~= seq!['\u{76e5}']);
                } else if j == 20 {
                    assert(q =~= seq!['\u{968d}']);
                } else if j == 21 {
                    assert(q =~= seq!['\u{983d}']);
                } else if j == 22 {
                    assert(q =~= seq!['\u{992e}']);
                } else if j == 23 {
                    assert(q =~= seq!['\u{9efb}']);
                } else if j == 24 {
                    assert(q =~= seq!['\u{8515}']);
                } else if j == 25 {
                    assert(q =~= seq!['\u{95c3}']);
                } else if j == 26 {
                    assert(q =~= seq!['\u{994c}']);
                } else if j == 27 {
                    assert(q =~= seq!['\u{7162}']);
                } else if j == 28 {
                    assert(q =~= seq!['\u{9477}']);
                } else if j == 30 {
                    assert(q =~= seq!['\u{9e79}']);
                } else if j == 32 {
                    assert(q =~= seq!['\u{7589}']);
                } else if j == 33 {
                    assert(q =~= seq!['\u{9452}']);
                }
            }
            assert(r[0] != q[0]);
            lemma_clear(q, r);
        }
    }
}

/// After the translation no key of the replacement table is left, so
/// translating again changes nothing.
pub proof fn translation_leaves_no_key(s: Seq<char>)
    ensures
        forall|k: int|
            0 <= k < special_chars().len() ==> !occurs(
                apply_replacements(s, special_chars()),
                #[trigger] special_chars()[k].0,
            ),
        apply_replacements(apply_replacements(s, special_chars()), special_chars())
            == apply_replacements(s, special_chars()),
{
    lemma_table_is_clear();
    let none = Seq::<Seq<char>>::empty();
    lemma_apply_replacements_clears(s, special_chars(), none);
    let t = apply_replacements(s, special_chars());
    assert forall|k: int, i: int| 0 <= k < special_chars().len() implies !#[trigger] matches_at(
        t,
        special_chars()[k].0,
        i,
    ) by {
        if matches_at(t, special_chars()[k].0, i) {
            assert(occurs(t, special_chars()[k].0));
        }
    }
    lemma_apply_replacements_absent(t, special_chars());
}

/// Text in which no key of the replacement table occurs comes back from the
/// translation unchanged.
pub proof fn text_without_keys_is_kept(s: Seq<char>)
    requires
        forall|k: int, i: int|
            0 <= k < special_chars().len() ==> !#[trigger] matches_at(s, special_chars()[k].0, i),
    ensures
        apply_replacements(s, special_chars()) == s,
{
    lemma_apply_replacements_absent(s, special_chars());
}

/// The text of a Shift_JIS document as `encoding_rs` decodes it.
pub uninterp spec fn shift_jis_text(bytes: Seq<u8>) -> Seq<char>;

/// Decodes bytes with `encoding_rs::SHIFT_JIS.decode`, which also follows a
/// byte order mark and replaces malformed sequences; the result is named,
/// not written out.
#[verifier::external_body]
pub(crate) fn decode_shift_jis(bytes: &[u8]) -> (text: String)
    ensures
        text@ == shift_jis_text(bytes@),
{
    let (decoded, _, _) = encoding_rs::SHIFT_JIS.decode(bytes);
    decoded.into_owned()
}

/// The document text that is handed to the XML parser.
pub open spec fn music_db_xml(bytes: Seq<u8>) -> Seq<char> {
    crate::text::replace_all(
        apply_replacements(shift_jis_text(bytes), special_chars()),
        "encoding=\"shift-jis\""@,
        "encoding=\"utf-8\""@,
    )
}

/// The chart tags under `difficulty`, from novice to ultimate.
pub open spec fn chart_tags() -> Seq<Seq<char>> {
    seq!["novice"@, "advanced"@, "exhaust"@, "infinite"@, "maximum"@, "ultimate"@]
}

/// The level of a chart tag: the `difnum` text under it, as a `u32`.
pub open spec fn chart_level_of(nodes: Seq<XmlNode>, difficulty: int, tag: Seq<char>) -> Option<
    u32,
> {
    match child_of(nodes, difficulty, tag) {
        None => None,
        Some(c) => match child_text_of(nodes, c, "difnum"@) {
            None => None,
            Some(t) => match parse_unsigned(t, u32::MAX as nat) {
                Some(v) => Some(v as u32),
                None => None,
            },
        },
    }
}

/// The six levels of a `music` element.
pub open spec fn levels_of(nodes: Seq<XmlNode>, music: int) -> Seq<Option<u32>> {
    match child_of(nodes, music, "difficulty"@) {
        None => Seq::new(6, |k: int| None),
        Some(d) => Seq::new(6, |k: int| chart_level_of(nodes, d, chart_tags()[k])),
    }
}

/// The six levels of a song are, in order, those of its `novice`,
/// `advanced`, `exhaust`, `infinite`, `maximum` and `ultimate` charts under
/// `difficulty`; a song without `difficulty` has no levels.
pub proof fn chart_levels_follow_the_chart_order(nodes: Seq<XmlNode>, music: int)
    ensures
        levels_of(nodes, music).len() == 6,
        match child_of(nodes, music, "difficulty"@) {
            None => forall|k: int| 0 <= k < 6 ==> (#[trigger] levels_of(nodes, music)[k]) is None,
            Some(d) => {
                &&& levels_of(nodes, music)[0] == chart_level_of(nodes, d, "novice"@)
                &&& levels_of(nodes, music)[1] == chart_level_of(nodes, d, "advanced"@)
                &&& levels_of(nodes, music)[2] == chart_level_of(nodes, d, "exhaust"@)
                &&& levels_of(nodes, music)[3] == chart_level_of(nodes, d, "infinite"@)
                &&& levels_of(nodes, music)[4] == chart_level_of(nodes, d, "maximum"@)
                &&& levels_of(nodes, music)[5] == chart_level_of(nodes, d, "ultimate"@)
            },
        },
{
}

fn chart_tag_list() -> (v: Vec<&'static str>)
    ensures
        v@.len() == 6,
        forall|k: int| 0 <= k < 6 ==> #[trigger] v@[k]@ == chart_tags()[k],
{
    vec!["novice", "advanced", "exhaust", "infinite", "maximum", "ultimate"]
}

pub fn parse_levels(nodes: &Vec<XmlNode>, music: usize) -> (levels: Vec<Option<u32>>)
    requires
        music < nodes@.len(),
    ensures
        levels@ == levels_of(nodes@, music as int),
{
    let mut levels: Vec<Option<u32>> = Vec::new();
    proof {
        lemma_first_child_in_range(nodes@, nodes@[music as int].children@, "difficulty"@);
    }
    match child(nodes, music, "difficulty") {
        None => {
            let mut k: usize = 0;
            while k < 6
                invariant
                    k <= 6,
                    levels@ == Seq::new(k as nat, |j: int| None::<u32>),
                decreases 6 - k,
            {
                levels.push(None);
                k = k + 1;
                assert(levels@ =~= Seq::new(k as nat, |j: int| None::<u32>));
            }
            assert(levels@ =~= levels_of(nodes@, music as int));
            levels
        },
        Some(d) => {
            let tags = chart_tag_list();
            let mut k: usize = 0;
            while k < 6
                invariant
                    k <= 6,
                    d < nodes@.len(),
                    tags@.len() == 6,
                    forall|j: int| 0 <= j < 6 ==> #[trigger] tags@[j]@ == chart_tags()[j],
                    levels@ == Seq::new(
                        k as nat,
                        |j: int| chart_level_of(nodes@, d as int, chart_tags()[j]),
                    ),
                decreases 6 - k,
            {
                let tag = tags[k];
                proof {
                    lemma_first_child_in_range(nodes@, nodes@[d as int].children@, tag@);
                }
                let level = match child(nodes, d, tag) {
                    None => None,
                    Some(c) => match child_text(nodes, c, "difnum") {
                        None => None,
                        Some(t) => {
                            let v = chars_of(t.as_str());
                            match parse_unsigned_chars(&v, 4294967295u64) {
                                Some(x) => Some(x as u32),
                                None => None,
                            }
                        },
                    },
                };
                assert(level == chart_level_of(nodes@, d as int, chart_tags()[k as int]));
                levels.push(level);
                k = k + 1;
                assert(levels@ =~= Seq::new(
                    k as nat,
                    |j: int| chart_level_of(nodes@, d as int, chart_tags()[j]),
                ));
            }
            assert(levels@ =~= levels_of(nodes@, music as int));
            levels
        },
    }
}

/// The song that node `at` describes: a `music` element with a `u32` `id`
/// attribute and an `info` child; its title defaults to `Unknown Song <id>`.
pub open spec fn music_entry_at(nodes: Seq<XmlNode>, at: int) -> Option<(u32, MusicEntryView)> {
    if !has_tag(nodes[at], "music"@) {
        None
    } else {
        match attribute_of(nodes[at], "id"@) {
            None => None,
            Some(idtext) => match parse_unsigned(idtext, u32::MAX as nat) {
                None => None,
                Some(id) => match child_of(nodes, at, "info"@) {
                    None => None,
                    Some(info) => {
                        let title = match child_text_of(nodes, info, "title_name"@) {
                            Some(t) => t,
                            None => "Unknown Song "@ + decimal(id),
                        };
                        let inf_ver = match child_text_of(nodes, info, "inf_ver"@) {
                            Some(t) => match parse_unsigned(t, 255) {
                                Some(v) => Some(v as u8),
                                None => None,
                            },
                            None => None,
                        };
                        Some(
                            (
                                id as u32,
                                MusicEntryView {
                                    title,
                                    inf_ver,
                                    levels: levels_of(nodes, at),
                                },
                            ),
                        )
                    },
                },
            },
        }
    }
}

/// The songs that the first `n` nodes describe; a later song with the same
/// id replaces an earlier one.
pub open spec fn music_entries(nodes: Seq<XmlNode>, n: nat) -> Map<u32, MusicEntryView>
    decreases n,
{
    if n == 0 {
        Map::empty()
    } else {
        let m = music_entries(nodes, (n - 1) as nat);
        match music_entry_at(nodes, n - 1) {
            Some((id, e)) => m.insert(id, e),
            None => m,
        }
    }
}

/// The music database of a document, or the error text.
pub open spec fn music_db_of(bytes: Seq<u8>) -> Result<Map<u32, MusicEntryView>, Seq<char>> {
    match xml_document(music_db_xml(bytes)) {
        Err(e) => Err("Failed to parse music_db.xml: "@ + e),
        Ok(nodes) => Ok(music_entries(nodes, nodes.len())),
    }
}

fn entry_at(nodes: &Vec<XmlNode>, at: usize) -> (r: Option<(u32, MusicEntry)>)
    requires
        at < nodes@.len(),
    ensures
        match r {
            Some((id, e)) => music_entry_at(nodes@, at as int) == Some((id, e@)),
            None => music_entry_at(nodes@, at as int) is None,
        },
{
    let node = &nodes[at];
    if !node_has_tag(node, "music") {
        return None;
    }
    let idtext = match node_attribute(node, "id") {
        Some(t) => t,
        None => {
            return None;
        },
    };
    let idchars = chars_of(idtext.as_str());
    let id = match parse_unsigned_chars(&idchars, 4294967295u64) {
        Some(x) => x,
        None => {
            return None;
        },
    };
    proof {
        lemma_first_child_in_range(nodes@, nodes@[at as int].children@, "info"@);
    }
    let info = match child(nodes, at, "info") {
        Some(c) => c,
        None => {
            return None;
        },
    };
    let title = match child_text(nodes, info, "title_name") {
        Some(t) => t,
        None => {
            let mut t = String::from_str("Unknown Song ");
            let d = decimal_string(id);
            append_str(&mut t, d.as_str());
            t
        },
    };
    let inf_ver = match child_text(nodes, info, "inf_ver") {
        Some(t) => {
            let v = chars_of(t.as_str());
            match parse_unsigned_chars(&v, 255u64) {
                Some(x) => Some(x as u8),
                None => None,
            }
        },
        None => None,
    };
    let levels = parse_levels(nodes, at);
    let entry = MusicEntry { title, inf_ver, levels };
    assert(entry@ == music_entry_at(nodes@, at as int).unwrap().1);
    Some((id as u32, entry))
}

/// Whether `m` holds exactly the songs of `spec`.
pub open spec fn same_entries(m: Map<u32, MusicEntry>, spec: Map<u32, MusicEntryView>) -> bool {
    &&& m.dom() == spec.dom()
    &&& forall|k: u32| #[trigger] m.contains_key(k) ==> m[k]@ == spec[k]
}

/// Reads the music database from the bytes of `music_db.xml`.
pub fn parse_music_db(bytes: &[u8]) -> (r: Result<HashMap<u32, MusicEntry>, String>)
    ensures
        match music_db_of(bytes@) {
            Err(e) => r matches Err(m) && m@ == e,
            Ok(spec) => r matches Ok(m) && same_entries(m@, spec),
        },
{
    let decoded = decode_shift_jis(bytes);
    let translated = translate_special_chars(decoded.as_str());
    let tv = chars_of(translated.as_str());
    let p = chars_of("encoding=\"shift-jis\"");
    let q = chars_of("encoding=\"utf-8\"");
    let xv = replace_chars(&tv, &p, &q);
    let xml = string_of(xv.as_slice());
    let nodes = match parse_xml(xml.as_str()) {
        Ok(n) => n,
        Err(e) => {
            let mut m = String::from_str("Failed to parse music_db.xml: ");
            append_str(&mut m, e.as_str());
            return Err(m);
        },
    };
    Ok(music_entries_of(&nodes))
}

/// The songs of a parsed music database.
pub fn music_entries_of(nodes: &Vec<XmlNode>) -> (entries: HashMap<u32, MusicEntry>)
    ensures
        same_entries(entries@, music_entries(nodes@, nodes@.len())),
{
    let mut entries: HashMap<u32, MusicEntry> = HashMap::new();
    let mut k: usize = 0;
    while k < nodes.len()
        invariant
            k <= nodes@.len(),
            same_entries(entries@, music_entries(nodes@, k as nat)),
        decreases nodes@.len() - k,
    {
        match entry_at(&nodes, k) {
            Some((id, e)) => {
                entries.insert(id, e);
            },
            None => {},
        }
        k = k + 1;
        assert(same_entries(entries@, music_entries(nodes@, k as nat))) by {
            assert(entries@.dom() =~= music_entries(nodes@, k as nat).dom());
        }
    }
    entries
}

} // verus!
