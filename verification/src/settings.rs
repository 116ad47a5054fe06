//! Settings: where the application's folder is and how saved settings are
//! completed.
use vstd::prelude::*;
use crate::paths::{extension_of, joined, parent_of, path_extension, path_join, path_parent};
use crate::text::same_text;
use vstd::string::StringExecFns;

verus! {

/// The directory that holds an application bundle on the way up from
/// `path`: `Some(parent)` for the first ancestor (the path itself first)
/// whose extension is `app`, `None` when no ancestor has it.
pub open spec fn bundle_parent(path: Seq<char>) -> Option<Option<Seq<char>>>
    decreases path.len(),
{
    if extension_of(path) == Some("app"@) {
        Some(parent_of(path))
    } else {
        match parent_of(path) {
            Some(q) => if q.len() < path.len() {
                bundle_parent(q)
            } else {
                None
            },
            None => None,
        }
    }
}

/// The folder the application keeps its files in: on macOS the folder
/// holding the `.app` bundle when the executable is inside one, else the
/// executable's folder.
pub open spec fn base_dir(exe: Seq<char>, macos: bool) -> Result<Seq<char>, Seq<char>> {
    if macos && bundle_parent(exe) is Some {
        match bundle_parent(exe).unwrap() {
            Some(d) => Ok(d),
            None => Err("Failed to resolve app bundle directory."@),
        }
    } else {
        match parent_of(exe) {
            Some(d) => Ok(d),
            None => Err("Failed to resolve executable directory."@),
        }
    }
}

/// The application's folder for the executable at `exe`; `macos` tells
/// whether the executable may sit inside an `.app` bundle.
pub fn app_base_dir_from_exe(exe: &str, macos: bool) -> (r: Result<String, String>)
    ensures
        match r {
            Ok(d) => base_dir(exe@, macos) == Ok::<Seq<char>, Seq<char>>(d@),
            Err(e) => base_dir(exe@, macos) == Err::<Seq<char>, Seq<char>>(e@),
        },
{
    if macos {
        let mut current = String::from_str(exe);
        loop
            invariant
                macos,
                bundle_parent(exe@) == bundle_parent(current@),
            ensures
                bundle_parent(exe@) is None,
            decreases current@.len(),
        {
            let is_app = match path_extension(current.as_str()) {
                Some(e) => same_text(e.as_str(), "app"),
                None => false,
            };
            if is_app {
                return match path_parent(current.as_str()) {
                    Some(d) => Ok(d),
                    None => Err(String::from_str("Failed to resolve app bundle directory.")),
                };
            }
            match path_parent(current.as_str()) {
                Some(p) => {
                    current = p;
                },
                None => {
                    break;
                },
            }
        }
    }
    match path_parent(exe) {
        Some(d) => Ok(d),
        None => Err(String::from_str("Failed to resolve executable directory.")),
    }
}

/// The settings the application stores.
pub struct AppSettings {
    pub data_dir: String,
    pub savedata_dir: String,
    pub background_image: String,
    pub upload_server_url: String,
    pub upload_qq: String,
    pub score_source: String,
    pub cloud_server_url: String,
    pub cloud_card_id: String,
    pub cloud_password: String,
    pub cloud_pcbid: String,
}

/// Saved settings with an empty data or save data folder taken from the
/// folders found next to the application.
pub fn complete_settings(saved: AppSettings, discovered: AppSettings) -> (r: AppSettings)
    ensures
        r.data_dir@ == if saved.data_dir@.len() == 0 {
            discovered.data_dir@
        } else {
            saved.data_dir@
        },
        r.savedata_dir@ == if saved.savedata_dir@.len() == 0 {
            discovered.savedata_dir@
        } else {
            saved.savedata_dir@
        },
        r.background_image == saved.background_image,
        r.upload_server_url == saved.upload_server_url,
        r.upload_qq == saved.upload_qq,
        r.score_source == saved.score_source,
        r.cloud_server_url == saved.cloud_server_url,
        r.cloud_card_id == saved.cloud_card_id,
        r.cloud_password == saved.cloud_password,
        r.cloud_pcbid == saved.cloud_pcbid,
{
    let mut settings = saved;
    if settings.data_dir.as_str().is_empty() {
        settings.data_dir = discovered.data_dir;
    }
    if settings.savedata_dir.as_str().is_empty() {
        settings.savedata_dir = discovered.savedata_dir;
    }
    settings
}

/// The name of the settings file in the application's folder.
pub const SETTINGS_FILE: &'static str = "sdvx-b50-tool.settings.json";

/// The settings file in the application's folder `base_dir`.
pub fn settings_path(base_dir: &str) -> (r: String)
    ensures
        r@ == joined(base_dir@, SETTINGS_FILE@),
{
    path_join(base_dir, SETTINGS_FILE)
}

/// Where an exported file named `file_name` goes by default: in the
/// application's folder `base_dir`.
pub fn default_output_path(base_dir: &str, file_name: &str) -> (r: String)
    ensures
        r@ == joined(base_dir@, file_name@),
{
    path_join(base_dir, file_name)
}

/// The folders looked at for the game data, in order: `data`, then
/// `contents/data`, under the application's folder.
pub fn data_dir_candidates(base_dir: &str) -> (r: Vec<String>)
    ensures
        r@.len() == 2,
        r@[0]@ == joined(base_dir@, "data"@),
        r@[1]@ == joined(joined(base_dir@, "contents"@), "data"@),
{
    let contents = path_join(base_dir, "contents");
    let mut r: Vec<String> = Vec::new();
    r.push(path_join(base_dir, "data"));
    r.push(path_join(contents.as_str(), "data"));
    r
}

/// The folders looked at for the save data, in order: `savedata`, then
/// `asphyxia/savedata`, under the application's folder.
pub fn savedata_dir_candidates(base_dir: &str) -> (r: Vec<String>)
    ensures
        r@.len() == 2,
        r@[0]@ == joined(base_dir@, "savedata"@),
        r@[1]@ == joined(joined(base_dir@, "asphyxia"@), "savedata"@),
{
    let asphyxia = path_join(base_dir, "asphyxia");
    let mut r: Vec<String> = Vec::new();
    r.push(path_join(base_dir, "savedata"));
    r.push(path_join(asphyxia.as_str(), "savedata"));
    r
}

/// The first candidate that is a folder, or the empty text when none is.
pub open spec fn first_dir(candidates: Seq<(String, bool)>) -> Seq<char>
    decreases candidates.len(),
{
    if candidates.len() == 0 {
        Seq::empty()
    } else if candidates[0].1 {
        candidates[0].0@
    } else {
        first_dir(candidates.drop_first())
    }
}

/// The first of the candidate paths that is a folder; each candidate comes
/// with whether the file system reports it as a folder.
pub fn first_existing_dir(candidates: &Vec<(String, bool)>) -> (r: String)
    ensures
        r@ == first_dir(candidates@),
{
    let mut k: usize = 0;
    assert(candidates@.skip(0) == candidates@);
    while k < candidates.len()
        invariant
            k <= candidates@.len(),
            first_dir(candidates@) == first_dir(candidates@.skip(k as int)),
        decreases candidates@.len() - k,
    {
        assert(candidates@.skip(k as int)[0] == candidates@[k as int]);
        assert(candidates@.skip(k as int).drop_first() =~= candidates@.skip(k + 1));
        if candidates[k].1 {
            return candidates[k].0.clone();
        }
        k = k + 1;
    }
    String::new()
}

/// The settings found next to the application: the first game data and
/// save data folders that exist, everything else empty.
pub fn discover_default_paths(
    data_dirs: &Vec<(String, bool)>,
    savedata_dirs: &Vec<(String, bool)>,
) -> (r: AppSettings)
    ensures
        r.data_dir@ == first_dir(data_dirs@),
        r.savedata_dir@ == first_dir(savedata_dirs@),
        r.background_image@.len() == 0,
        r.upload_server_url@.len() == 0,
        r.upload_qq@.len() == 0,
        r.score_source@.len() == 0,
        r.cloud_server_url@.len() == 0,
        r.cloud_card_id@.len() == 0,
        r.cloud_password@.len() == 0,
        r.cloud_pcbid@.len() == 0,
{
    AppSettings {
        data_dir: first_existing_dir(data_dirs),
        savedata_dir: first_existing_dir(savedata_dirs),
        background_image: String::new(),
        upload_server_url: String::new(),
        upload_qq: String::new(),
        score_source: String::new(),
        cloud_server_url: String::new(),
        cloud_card_id: String::new(),
        cloud_password: String::new(),
        cloud_pcbid: String::new(),
    }
}

} // verus!
