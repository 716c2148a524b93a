//! Where the editor keeps its files.

use vstd::prelude::*;
use crate::path::{join_path, joined_path};
use crate::text::copy_text;

verus! {

/// The name of the file that says how the files of a directory are formatted.
pub const EDITORCONFIG_NAME: &'static str = ".editorconfig";

/// What the places of files depend on.
#[derive(Debug)]
pub struct Locations {
    home_dir: String,
    cache_dir: Option<String>,
    /// Where all data of the user goes, if not to the usual places.
    custom_data_dir: Option<String>,
    /// Whether somebody already knows where data, or settings, are kept.
    data_dir_known: bool,
    config_dir_known: bool,
    /// Where logs are kept, once somebody asked for it.
    logs_dir: Option<String>,
}

/// What the places of files depend on.
pub struct LocationsModel {
    pub home_dir: Seq<char>,
    pub cache_dir: Option<Seq<char>>,
    pub custom_data_dir: Option<Seq<char>>,
    pub data_dir_known: bool,
    pub config_dir_known: bool,
    pub logs_dir: Option<Seq<char>>,
}

impl View for Locations {
    type V = LocationsModel;

    closed spec fn view(&self) -> LocationsModel {
        LocationsModel {
            home_dir: self.home_dir@,
            cache_dir: match self.cache_dir {
                Some(dir) => Some(dir@),
                None => None,
            },
            custom_data_dir: match self.custom_data_dir {
                Some(dir) => Some(dir@),
                None => None,
            },
            data_dir_known: self.data_dir_known,
            config_dir_known: self.config_dir_known,
            logs_dir: match self.logs_dir {
                Some(dir) => Some(dir@),
                None => None,
            },
        }
    }
}

/// The directory for settings.
pub open spec fn config_path(locations: LocationsModel) -> Seq<char> {
    match locations.custom_data_dir {
        Some(dir) => joined_path(dir, "config"@),
        None => joined_path(joined_path(locations.home_dir, ".config"@), "zed"@),
    }
}

/// The directory for data.
pub open spec fn data_path(locations: LocationsModel) -> Seq<char> {
    match locations.custom_data_dir {
        Some(dir) => dir,
        None => joined_path(locations.home_dir, "Library/Application Support/Zed"@),
    }
}

/// The directory for logs. It stays where it was when somebody first asked for it.
pub open spec fn logs_path(locations: LocationsModel) -> Seq<char> {
    match (locations.logs_dir, locations.custom_data_dir) {
        (Some(dir), _) => dir,
        (None, Some(dir)) => joined_path(dir, "logs"@),
        (None, None) => joined_path(locations.home_dir, "Library/Logs/ZedMin"@),
    }
}

/// The places after somebody asked for the directory for logs.
pub open spec fn logs_asked(locations: LocationsModel) -> LocationsModel {
    LocationsModel { logs_dir: Some(logs_path(locations)), ..locations }
}

/// The places after somebody asked for the directory for settings.
pub open spec fn config_asked(locations: LocationsModel) -> LocationsModel {
    LocationsModel { config_dir_known: true, ..locations }
}

/// The places after somebody asked for the directory for data.
pub open spec fn data_asked(locations: LocationsModel) -> LocationsModel {
    LocationsModel { data_dir_known: true, ..locations }
}

impl Locations {
    /// The usual places for a user.
    pub fn new(home_dir: String, cache_dir: Option<String>) -> (r: Locations)
        ensures
            r@ == (LocationsModel {
                home_dir: home_dir@,
                cache_dir: match cache_dir {
                    Some(dir) => Some(dir@),
                    None => None,
                },
                custom_data_dir: None,
                data_dir_known: false,
                config_dir_known: false,
                logs_dir: None,
            }),
    {
        Locations {
            home_dir,
            cache_dir,
            custom_data_dir: None,
            data_dir_known: false,
            config_dir_known: false,
            logs_dir: None,
        }
    }

    /// The directory for all data, if one was set.
    pub fn custom_data_dir(&self) -> (r: Option<&String>)
        ensures
            (match r {
                Some(dir) => Some(dir@),
                None => None,
            }) == self@.custom_data_dir,
    {
        match &self.custom_data_dir {
            Some(dir) => Some(dir),
            None => None,
        }
    }

    /// Whether it is too late to set the directory for all data.
    pub fn is_known(&self) -> (r: bool)
        ensures
            r == (self@.data_dir_known || self@.config_dir_known),
    {
        self.data_dir_known || self.config_dir_known
    }
}

/// Sets the directory for all data, and gives back the one that counts: the first one
/// that was set. Nobody may have asked for a directory before.
pub fn set_custom_data_dir(locations: &mut Locations, dir: &str) -> (r: String)
    requires
        !old(locations)@.data_dir_known,
        !old(locations)@.config_dir_known,
    ensures
        r@ == (match old(locations)@.custom_data_dir {
            Some(first) => first,
            None => dir@,
        }),
        final(locations)@ == (LocationsModel { custom_data_dir: Some(r@), ..old(locations)@ }),
{
    let counts = match &locations.custom_data_dir {
        Some(first) => copy_text(first.as_str()),
        None => copy_text(dir),
    };
    locations.custom_data_dir = Some(copy_text(counts.as_str()));
    counts
}

/// The directory for settings.
pub fn config_dir(locations: &mut Locations) -> (r: String)
    ensures
        r@ == config_path(old(locations)@),
        final(locations)@ == config_asked(old(locations)@),
{
    locations.config_dir_known = true;
    match &locations.custom_data_dir {
        Some(dir) => join_path(dir.as_str(), "config"),
        None => {
            let hidden = join_path(locations.home_dir.as_str(), ".config");
            join_path(hidden.as_str(), "zed")
        },
    }
}

/// The directory for data.
pub fn data_dir(locations: &mut Locations) -> (r: String)
    ensures
        r@ == data_path(old(locations)@),
        final(locations)@ == data_asked(old(locations)@),
{
    locations.data_dir_known = true;
    match &locations.custom_data_dir {
        Some(dir) => copy_text(dir.as_str()),
        None => join_path(locations.home_dir.as_str(), "Library/Application Support/Zed"),
    }
}

/// The directory for files that are needed for a while. There must be one for caches.
pub fn temp_dir(locations: &Locations) -> (r: String)
    requires
        locations@.cache_dir is Some,
    ensures
        r@ == joined_path(locations@.cache_dir->0, "ZedMin"@),
{
    match &locations.cache_dir {
        Some(dir) => join_path(dir.as_str(), "ZedMin"),
        None => String::new(),
    }
}

/// The directory for logs.
pub fn logs_dir(locations: &mut Locations) -> (r: String)
    ensures
        r@ == logs_path(old(locations)@),
        final(locations)@ == logs_asked(old(locations)@),
{
    let dir = match (&locations.logs_dir, &locations.custom_data_dir) {
        (Some(dir), _) => copy_text(dir.as_str()),
        (None, Some(dir)) => join_path(dir.as_str(), "logs"),
        (None, None) => join_path(locations.home_dir.as_str(), "Library/Logs/ZedMin"),
    };
    locations.logs_dir = Some(copy_text(dir.as_str()));
    dir
}

/// Where reports on crashes are.
pub fn crashes_dir(locations: &Locations) -> (r: Option<String>)
    ensures
        r matches Some(dir) && dir@ == joined_path(
            locations@.home_dir,
            "Library/Logs/DiagnosticReports"@,
        ),
{
    Some(join_path(locations.home_dir.as_str(), "Library/Logs/DiagnosticReports"))
}

/// Where old reports on crashes are.
pub fn crashes_retired_dir(locations: &Locations) -> (r: Option<String>)
    ensures
        r matches Some(dir) && dir@ == joined_path(
            joined_path(locations@.home_dir, "Library/Logs/DiagnosticReports"@),
            "Retired"@,
        ),
{
    match crashes_dir(locations) {
        Some(dir) => Some(join_path(dir.as_str(), "Retired")),
        None => None,
    }
}

/// Where the extensions for a remote machine are put before they are installed.
pub fn remote_extensions_uploads_dir(locations: &mut Locations) -> (r: String)
    ensures
        r@ == joined_path(
            joined_path(data_path(old(locations)@), "remote_extensions"@),
            "uploads"@,
        ),
        final(locations)@ == data_asked(old(locations)@),
{
    let dir = remote_extensions_dir(locations);
    join_path(dir.as_str(), "uploads")
}

/// Where to find the log file.
pub fn log_file(locations: &mut Locations) -> (r: String)
    ensures
        r@ == joined_path(logs_path(old(locations)@), "ZedMin.log"@),
        final(locations)@ == logs_asked(old(locations)@),
{
    let dir = logs_dir(locations);
    join_path(dir.as_str(), "ZedMin.log")
}

/// Where to find the log file of the time before.
pub fn old_log_file(locations: &mut Locations) -> (r: String)
    ensures
        r@ == joined_path(logs_path(old(locations)@), "ZedMin.log.old"@),
        final(locations)@ == logs_asked(old(locations)@),
{
    let dir = logs_dir(locations);
    join_path(dir.as_str(), "ZedMin.log.old")
}

/// Where to find the databases.
pub fn database_dir(locations: &mut Locations) -> (r: String)
    ensures
        r@ == joined_path(data_path(old(locations)@), "db"@),
        final(locations)@ == data_asked(old(locations)@),
{
    let dir = data_dir(locations);
    join_path(dir.as_str(), "db")
}

/// Where to find the settings.
pub fn settings_file(locations: &mut Locations) -> (r: String)
    ensures
        r@ == joined_path(config_path(old(locations)@), "settings.json"@),
        final(locations)@ == config_asked(old(locations)@),
{
    let dir = config_dir(locations);
    join_path(dir.as_str(), "settings.json")
}

/// Where to find the settings of all users.
pub fn global_settings_file(locations: &mut Locations) -> (r: String)
    ensures
        r@ == joined_path(config_path(old(locations)@), "global_settings.json"@),
        final(locations)@ == config_asked(old(locations)@),
{
    let dir = config_dir(locations);
    join_path(dir.as_str(), "global_settings.json")
}

/// Where to find the copy of the settings.
pub fn settings_backup_file(locations: &mut Locations) -> (r: String)
    ensures
        r@ == joined_path(config_path(old(locations)@), "settings_backup.json"@),
        final(locations)@ == config_asked(old(locations)@),
{
    let dir = config_dir(locations);
    join_path(dir.as_str(), "settings_backup.json")
}

/// Where to find the keymap.
pub fn keymap_file(locations: &mut Locations) -> (r: String)
    ensures
        r@ == joined_path(config_path(old(locations)@), "keymap.json"@),
        final(locations)@ == config_asked(old(locations)@),
{
    let dir = config_dir(locations);
    join_path(dir.as_str(), "keymap.json")
}

/// Where to find the copy of the keymap.
pub fn keymap_backup_file(locations: &mut Locations) -> (r: String)
    ensures
        r@ == joined_path(config_path(old(locations)@), "keymap_backup.json"@),
        final(locations)@ == config_asked(old(locations)@),
{
    let dir = config_dir(locations);
    join_path(dir.as_str(), "keymap_backup.json")
}

/// Where to find the installed extensions.
pub fn extensions_dir(locations: &mut Locations) -> (r: String)
    ensures
        r@ == joined_path(data_path(old(locations)@), "extensions"@),
        final(locations)@ == data_asked(old(locations)@),
{
    let dir = data_dir(locations);
    join_path(dir.as_str(), "extensions")
}

/// Where to find the extensions that are installed on a remote machine.
pub fn remote_extensions_dir(locations: &mut Locations) -> (r: String)
    ensures
        r@ == joined_path(data_path(old(locations)@), "remote_extensions"@),
        final(locations)@ == data_asked(old(locations)@),
{
    let dir = data_dir(locations);
    join_path(dir.as_str(), "remote_extensions")
}

/// Where to find the themes that no extension provides.
pub fn themes_dir(locations: &mut Locations) -> (r: String)
    ensures
        r@ == joined_path(config_path(old(locations)@), "themes"@),
        final(locations)@ == config_asked(old(locations)@),
{
    let dir = config_dir(locations);
    join_path(dir.as_str(), "themes")
}

/// Where to find the snippets.
pub fn snippets_dir(locations: &mut Locations) -> (r: String)
    ensures
        r@ == joined_path(config_path(old(locations)@), "snippets"@),
        final(locations)@ == config_asked(old(locations)@),
{
    let dir = config_dir(locations);
    join_path(dir.as_str(), "snippets")
}

/// Where to find the language servers of built-in languages.
pub fn languages_dir(locations: &mut Locations) -> (r: String)
    ensures
        r@ == joined_path(data_path(old(locations)@), "languages"@),
        final(locations)@ == data_asked(old(locations)@),
{
    let dir = data_dir(locations);
    join_path(dir.as_str(), "languages")
}

/// Where to find the default Prettier.
pub fn default_prettier_dir(locations: &mut Locations) -> (r: String)
    ensures
        r@ == joined_path(data_path(old(locations)@), "prettier"@),
        final(locations)@ == data_asked(old(locations)@),
{
    let dir = data_dir(locations);
    join_path(dir.as_str(), "prettier")
}

/// Where to find the servers for remote machines.
pub fn remote_servers_dir(locations: &mut Locations) -> (r: String)
    ensures
        r@ == joined_path(data_path(old(locations)@), "remote_servers"@),
        final(locations)@ == data_asked(old(locations)@),
{
    let dir = data_dir(locations);
    join_path(dir.as_str(), "remote_servers")
}

/// The directory for the settings of a project, in the project.
pub fn local_settings_folder_relative_path() -> (r: &'static str)
    ensures
        r@ == ".zed"@,
{
    ".zed"
}

/// The settings of a project, in the project.
pub fn local_settings_file_relative_path() -> (r: &'static str)
    ensures
        r@ == ".zed-min/settings.json"@,
{
    ".zed-min/settings.json"
}

/// The ways to debug a project, in the project.
pub fn local_debug_file_relative_path() -> (r: &'static str)
    ensures
        r@ == ".zed/debug.json"@,
{
    ".zed/debug.json"
}

/// Asking for one of the directories for data, settings and logs leaves all of them
/// where they are.
pub proof fn law_asking_moves_nothing(locations: LocationsModel)
    ensures
        data_path(data_asked(locations)) == data_path(locations),
        data_path(config_asked(locations)) == data_path(locations),
        config_path(data_asked(locations)) == config_path(locations),
        config_path(config_asked(locations)) == config_path(locations),
        logs_path(data_asked(locations)) == logs_path(locations),
        logs_path(config_asked(locations)) == logs_path(locations),
        data_path(logs_asked(locations)) == data_path(locations),
        config_path(logs_asked(locations)) == config_path(locations),
        logs_path(logs_asked(locations)) == logs_path(locations),
{
}

/// With a directory for all data, settings and data are in it, and so are logs if
/// nobody asked for them before.
pub proof fn law_custom_directory_holds_all(locations: LocationsModel, dir: Seq<char>, name: Seq<char>)
    requires
        locations.custom_data_dir == Some(dir),
        dir.len() > 0,
        name.len() > 0,
        name[0] != '/',
    ensures
        dir.is_prefix_of(config_path(locations)),
        dir.is_prefix_of(joined_path(config_path(locations), name)),
        dir.is_prefix_of(joined_path(data_path(locations), name)),
        locations.logs_dir is None ==> dir.is_prefix_of(logs_path(locations))
            && dir.is_prefix_of(joined_path(logs_path(locations), name)),
{
    reveal_strlit("config");
    reveal_strlit("logs");
    let config = config_path(locations);
    assert(config.take(dir.len() as int) =~= dir);
    assert(joined_path(config, name).take(dir.len() as int) =~= dir);
    assert(joined_path(dir, name).take(dir.len() as int) =~= dir);
    if locations.logs_dir is None {
        let logs = logs_path(locations);
        assert(logs.take(dir.len() as int) =~= dir);
        assert(joined_path(logs, name).take(dir.len() as int) =~= dir);
    }
}

/// Whether a directory is written without a slash at its end.
pub open spec fn is_plain_directory(dir: Seq<char>) -> bool {
    dir.len() > 0 && dir.last() != '/'
}

proof fn lemma_plain(dir: Seq<char>, name: Seq<char>)
    requires
        is_plain_directory(dir),
        name.len() > 0,
        name[0] != '/',
    ensures
        joined_path(dir, name) == dir + seq!['/'] + name,
{
}

/// Settings are in the directory of the configuration: that of the home directory, or the one
/// in the directory for all data where there is one. Each has its own name.
pub proof fn law_where_settings_are(
    home: Seq<char>,
    base: Seq<char>,
    a: &mut Locations,
    b: &mut Locations,
    c: &mut Locations,
    d: &mut Locations,
    e: &mut Locations,
    f: &mut Locations,
    g: &mut Locations,
    h: &mut Locations,
    config: String,
    settings: String,
    global: String,
    settings_backup: String,
    keymap: String,
    keymap_backup: String,
    themes: String,
    snippets: String,
)
    requires
        is_plain_directory(home),
        old(a)@.custom_data_dir is None && old(a)@.home_dir == home && base == home
            + "/.config/zed"@ || old(a)@.custom_data_dir == Some(home) && base == home
            + "/config"@,
        old(b)@ == old(a)@ && old(c)@ == old(a)@ && old(d)@ == old(a)@ && old(e)@ == old(a)@,
        old(f)@ == old(a)@ && old(g)@ == old(a)@ && old(h)@ == old(a)@,
        call_ensures(config_dir, (a,), config),
        call_ensures(settings_file, (b,), settings),
        call_ensures(global_settings_file, (c,), global),
        call_ensures(settings_backup_file, (d,), settings_backup),
        call_ensures(keymap_file, (e,), keymap),
        call_ensures(keymap_backup_file, (f,), keymap_backup),
        call_ensures(themes_dir, (g,), themes),
        call_ensures(snippets_dir, (h,), snippets),
    ensures
        config@ == base,
        settings@ == base + seq!['/'] + "settings.json"@,
        global@ == base + seq!['/'] + "global_settings.json"@,
        settings_backup@ == base + seq!['/'] + "settings_backup.json"@,
        keymap@ == base + seq!['/'] + "keymap.json"@,
        keymap_backup@ == base + seq!['/'] + "keymap_backup.json"@,
        themes@ == base + seq!['/'] + "themes"@,
        snippets@ == base + seq!['/'] + "snippets"@,
{
    reveal_strlit(".config");
    reveal_strlit("zed");
    reveal_strlit("config");
    reveal_strlit("/config");
    reveal_strlit("/.config/zed");
    reveal_strlit("settings.json");
    reveal_strlit("global_settings.json");
    reveal_strlit("settings_backup.json");
    reveal_strlit("keymap.json");
    reveal_strlit("keymap_backup.json");
    reveal_strlit("themes");
    reveal_strlit("snippets");
    if old(a)@.custom_data_dir is None {
        lemma_plain(home, ".config"@);
        let dir = home + seq!['/'] + ".config"@;
        lemma_plain(dir, "zed"@);
        assert(dir + seq!['/'] + "zed"@ =~= base);
    } else {
        lemma_plain(home, "config"@);
        assert(home + seq!['/'] + "config"@ =~= base);
    }
    lemma_plain(base, "settings.json"@);
    lemma_plain(base, "global_settings.json"@);
    lemma_plain(base, "settings_backup.json"@);
    lemma_plain(base, "keymap.json"@);
    lemma_plain(base, "keymap_backup.json"@);
    lemma_plain(base, "themes"@);
    lemma_plain(base, "snippets"@);
}

/// Data is in the directory for all data, or else in the one that the home directory has for
/// it. Each kind of it has its own name.
pub proof fn law_where_data_is(
    home: Seq<char>,
    base: Seq<char>,
    a: &mut Locations,
    b: &mut Locations,
    c: &mut Locations,
    d: &mut Locations,
    e: &mut Locations,
    f: &mut Locations,
    g: &mut Locations,
    h: &mut Locations,
    data: String,
    database: String,
    extensions: String,
    remote_extensions: String,
    uploads: String,
    languages: String,
    prettier: String,
    servers: String,
)
    requires
        is_plain_directory(home),
        old(a)@.custom_data_dir is None && old(a)@.home_dir == home && base == home
            + "/Library/Application Support/Zed"@ || old(a)@.custom_data_dir == Some(home) && base
            == home,
        old(b)@ == old(a)@ && old(c)@ == old(a)@ && old(d)@ == old(a)@ && old(e)@ == old(a)@,
        old(f)@ == old(a)@ && old(g)@ == old(a)@ && old(h)@ == old(a)@,
        call_ensures(data_dir, (a,), data),
        call_ensures(database_dir, (b,), database),
        call_ensures(extensions_dir, (c,), extensions),
        call_ensures(remote_extensions_dir, (d,), remote_extensions),
        call_ensures(remote_extensions_uploads_dir, (e,), uploads),
        call_ensures(languages_dir, (f,), languages),
        call_ensures(default_prettier_dir, (g,), prettier),
        call_ensures(remote_servers_dir, (h,), servers),
    ensures
        data@ == base,
        database@ == base + seq!['/'] + "db"@,
        extensions@ == base + seq!['/'] + "extensions"@,
        remote_extensions@ == base + seq!['/'] + "remote_extensions"@,
        uploads@ == remote_extensions@ + seq!['/'] + "uploads"@,
        languages@ == base + seq!['/'] + "languages"@,
        prettier@ == base + seq!['/'] + "prettier"@,
        servers@ == base + seq!['/'] + "remote_servers"@,
{
    reveal_strlit("Library/Application Support/Zed");
    reveal_strlit("/Library/Application Support/Zed");
    reveal_strlit("db");
    reveal_strlit("extensions");
    reveal_strlit("remote_extensions");
    reveal_strlit("uploads");
    reveal_strlit("languages");
    reveal_strlit("prettier");
    reveal_strlit("remote_servers");
    lemma_plain(home, "Library/Application Support/Zed"@);
    assert(home + seq!['/'] + "Library/Application Support/Zed"@ =~= home
        + "/Library/Application Support/Zed"@);
    lemma_plain(base, "db"@);
    lemma_plain(base, "extensions"@);
    lemma_plain(base, "remote_extensions"@);
    lemma_plain(base + seq!['/'] + "remote_extensions"@, "uploads"@);
    lemma_plain(base, "languages"@);
    lemma_plain(base, "prettier"@);
    lemma_plain(base, "remote_servers"@);
}

/// Logs are where they were first asked for: in the directory for all data, or else in the one
/// that the home directory has for them. Reports of crashes are in the home directory.
pub proof fn law_where_logs_are(
    home: Seq<char>,
    base: Seq<char>,
    a: &mut Locations,
    b: &mut Locations,
    c: &mut Locations,
    at: Locations,
    logs: String,
    log: String,
    old_log: String,
    crashes: Option<String>,
    retired: Option<String>,
    temp: String,
)
    requires
        is_plain_directory(home),
        ({
            ||| old(a)@.logs_dir == Some(home) && base == home
            ||| old(a)@.logs_dir is None && old(a)@.custom_data_dir == Some(home) && base == home
                + "/logs"@
            ||| old(a)@.logs_dir is None && old(a)@.custom_data_dir is None && old(a)@.home_dir
                == home && base == home + "/Library/Logs/ZedMin"@
        }),
        old(b)@ == old(a)@ && old(c)@ == old(a)@,
        call_ensures(logs_dir, (a,), logs),
        call_ensures(log_file, (b,), log),
        call_ensures(old_log_file, (c,), old_log),
        is_plain_directory(at@.home_dir),
        at@.cache_dir is Some && is_plain_directory(at@.cache_dir->0),
        call_ensures(crashes_dir, (&at,), crashes),
        call_ensures(crashes_retired_dir, (&at,), retired),
        call_ensures(temp_dir, (&at,), temp),
    ensures
        logs@ == base,
        log@ == base + seq!['/'] + "ZedMin.log"@,
        old_log@ == base + seq!['/'] + "ZedMin.log.old"@,
        crashes is Some && crashes->0@ == at@.home_dir + "/Library/Logs/DiagnosticReports"@,
        retired is Some && retired->0@ == at@.home_dir
            + "/Library/Logs/DiagnosticReports/Retired"@,
        temp@ == at@.cache_dir->0 + "/ZedMin"@,
{
    reveal_strlit("logs");
    reveal_strlit("/logs");
    reveal_strlit("Library/Logs/ZedMin");
    reveal_strlit("/Library/Logs/ZedMin");
    reveal_strlit("ZedMin.log");
    reveal_strlit("ZedMin.log.old");
    reveal_strlit("ZedMin");
    reveal_strlit("/ZedMin");
    reveal_strlit("Retired");
    reveal_strlit("Library/Logs/DiagnosticReports");
    reveal_strlit("/Library/Logs/DiagnosticReports");
    reveal_strlit("/Library/Logs/DiagnosticReports/Retired");
    lemma_plain(home, "logs"@);
    assert(home + seq!['/'] + "logs"@ =~= home + "/logs"@);
    lemma_plain(home, "Library/Logs/ZedMin"@);
    assert(home + seq!['/'] + "Library/Logs/ZedMin"@ =~= home + "/Library/Logs/ZedMin"@);
    lemma_plain(base, "ZedMin.log"@);
    lemma_plain(base, "ZedMin.log.old"@);
    let user = at@.home_dir;
    lemma_plain(user, "Library/Logs/DiagnosticReports"@);
    let reports = user + seq!['/'] + "Library/Logs/DiagnosticReports"@;
    assert(reports =~= user + "/Library/Logs/DiagnosticReports"@);
    lemma_plain(reports, "Retired"@);
    assert(reports + seq!['/'] + "Retired"@ =~= user
        + "/Library/Logs/DiagnosticReports/Retired"@);
    lemma_plain(at@.cache_dir->0, "ZedMin"@);
    assert(at@.cache_dir->0 + seq!['/'] + "ZedMin"@ =~= at@.cache_dir->0 + "/ZedMin"@);
}

} // verus!
