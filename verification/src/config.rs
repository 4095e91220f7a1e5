//! Settings: where the library is, where the index lives, and (optionally) which server to talk to.
//!
//! Precedence: explicit flags > environment (`UAI_LIBRARY`, `UAI_HOME`, `UAI_SERVER`) > `config.json`
//! in the home directory > defaults.

use vstd::prelude::*;

use crate::db::text_view;
use crate::model::clone_text;
use crate::text::{
    cat, cat3, chars_of, cut_back, cut_front, strip_prefix, trim, trim_back, trim_front, trimmed, Sep,
};

verus! {

/// What `config.json` holds.
#[derive(Debug)]
pub struct ConfigFile {
    pub library: Option<String>,
    pub server: Option<String>,
}

/// What a [`ConfigFile`] holds.
#[verifier::ext_equal]
pub struct ConfigFileView {
    pub library: Option<Seq<char>>,
    pub server: Option<Seq<char>>,
}

impl View for ConfigFile {
    type V = ConfigFileView;

    open spec fn view(&self) -> ConfigFileView {
        ConfigFileView {
            library: self.library.deep_view(),
            server: self.server.deep_view(),
        }
    }
}

impl DeepView for ConfigFile {
    type V = ConfigFileView;

    open spec fn deep_view(&self) -> ConfigFileView {
        self.view()
    }
}

impl Clone for ConfigFile {
    fn clone(&self) -> (r: Self)
        ensures
            r@ == self@,
    {
        let r = ConfigFile {
            library: self.library.clone(),
            server: self.server.clone(),
        };
        assert(r.library.deep_view() == self.library.deep_view());
        assert(r.server.deep_view() == self.server.deep_view());
        r
    }
}

impl Default for ConfigFile {
    fn default() -> (r: Self)
        ensures
            r@ == (ConfigFileView {
                library: None,
                server: None,
            }),
    {
        let r = ConfigFile {
            library: None,
            server: None,
        };
        r
    }
}

/// The settings.
#[derive(Debug)]
pub struct Config {
    pub library: String,
    pub home: String,
    /// Base URL of a remote `uai serve` instance. When set, read-only commands run against it.
    pub server: Option<String>,
}

/// What a [`Config`] holds.
#[verifier::ext_equal]
pub struct ConfigView {
    pub library: Seq<char>,
    pub home: Seq<char>,
    pub server: Option<Seq<char>>,
}

impl View for Config {
    type V = ConfigView;

    open spec fn view(&self) -> ConfigView {
        ConfigView {
            library: self.library@,
            home: self.home@,
            server: self.server.deep_view(),
        }
    }
}

impl DeepView for Config {
    type V = ConfigView;

    open spec fn deep_view(&self) -> ConfigView {
        self.view()
    }
}

impl Clone for Config {
    fn clone(&self) -> (r: Self)
        ensures
            r@ == self@,
    {
        let r = Config {
            library: self.library.clone(),
            home: self.home.clone(),
            server: self.server.clone(),
        };
        assert(r.server.deep_view() == self.server.deep_view());
        r
    }
}


// ----- paths ---------------------------------------------------------------------------------

/// A path within a directory; an absolute path stands for itself.
pub open spec fn joined_path(dir: Seq<char>, path: Seq<char>) -> Seq<char> {
    if path.len() > 0 && path[0] == '/' {
        path
    } else if dir.len() == 0 || dir.last() == '/' {
        dir + path
    } else {
        dir + "/"@ + path
    }
}

pub fn join_path(dir: &str, path: &str) -> (r: String)
    ensures
        r@ == joined_path(dir@, path@),
{
    let d = chars_of(dir);
    let p = chars_of(path);
    if p.len() > 0 && p[0] == '/' {
        path.to_string()
    } else if d.len() == 0 || d[d.len() - 1] == '/' {
        cat(dir, path)
    } else {
        cat3(dir, "/", path)
    }
}

/// A path with the user's home directory for a `~` at its start, where that directory is known.
pub open spec fn tilde_expanded(s: Seq<char>, user_home: Option<Seq<char>>) -> Seq<char> {
    match user_home {
        Some(home) => if s.len() > 0 && s[0] == '~' {
            let rest = trim_front(s.skip(1), Sep::Slash);
            if rest.len() == 0 {
                home
            } else {
                joined_path(home, rest)
            }
        } else {
            s
        },
        None => s,
    }
}

/// Puts the user's home directory in the place of a `~` at the start of a path.
pub fn expand_tilde(s: &str, user_home: Option<&str>) -> (r: String)
    ensures
        r@ == tilde_expanded(s@, text_view(user_home)),
{
    proof {
        reveal_strlit("~");
        assert("~"@ =~= seq!['~']);
        if s@.len() > 0 {
            assert(s@.subrange(0, 1) =~= seq![s@[0]]);
        }
    }
    match user_home {
        Some(home) => match strip_prefix(s, "~") {
            Some(tail) => {
                assert(s@[0] == '~') by {
                    assert(s@.subrange(0, 1)[0] == "~"@[0]);
                }
                let rest = cut_front(tail.as_str(), Sep::Slash);
                if rest.as_str().is_empty() {
                    home.to_string()
                } else {
                    join_path(home, rest.as_str())
                }
            },
            None => s.to_string(),
        },
        None => s.to_string(),
    }
}

// ----- precedence ----------------------------------------------------------------------------

/// A setting that is there and not empty.
pub open spec fn filled_in(o: Option<Seq<char>>) -> Option<Seq<char>> {
    match o {
        Some(s) => if s.len() > 0 {
            Some(s)
        } else {
            None
        },
        None => None,
    }
}

/// The first setting that is there.
pub open spec fn first_of(a: Option<Seq<char>>, b: Option<Seq<char>>) -> Option<Seq<char>> {
    match a {
        Some(s) => Some(s),
        None => b,
    }
}

/// The home directory: by flag, by environment, or below the user's home.
pub open spec fn home_setting(
    flag: Option<Seq<char>>,
    env: Option<Seq<char>>,
    user_home: Option<Seq<char>>,
) -> Seq<char> {
    match first_of(flag, filled_in(env)) {
        Some(s) => tilde_expanded(s, user_home),
        None => joined_path(
            match user_home {
                Some(h) => h,
                None => "."@,
            },
            ".unity-asset-index"@,
        ),
    }
}

/// The library: by flag, by environment, by file, or the default.
pub open spec fn library_setting(
    flag: Option<Seq<char>>,
    env: Option<Seq<char>>,
    file: Option<Seq<char>>,
    default: Seq<char>,
) -> Seq<char> {
    match first_of(flag, first_of(filled_in(env), filled_in(file))) {
        Some(s) => s,
        None => default,
    }
}

/// A server URL without white space around it and slashes behind it; none where it says nothing.
pub open spec fn server_url(s: Option<Seq<char>>) -> Option<Seq<char>> {
    match s {
        Some(u) => if trim(u).len() > 0 {
            Some(trim_back(trim(u), Sep::Is('/')))
        } else {
            None
        },
        None => None,
    }
}

/// The server: by flag, by environment, or by file.
pub open spec fn server_setting(
    flag: Option<Seq<char>>,
    env: Option<Seq<char>>,
    file: Option<Seq<char>>,
) -> Option<Seq<char>> {
    server_url(first_of(flag, first_of(env, file)))
}

fn filled_text(o: Option<&str>) -> (r: Option<String>)
    ensures
        r.deep_view() == filled_in(text_view(o)),
{
    match o {
        Some(s) => if s.is_empty() {
            None
        } else {
            Some(s.to_string())
        },
        None => None,
    }
}

fn owned(o: Option<&str>) -> (r: Option<String>)
    ensures
        r.deep_view() == text_view(o),
{
    match o {
        Some(s) => Some(s.to_string()),
        None => None,
    }
}

fn or_text(a: Option<String>, b: Option<String>) -> (r: Option<String>)
    ensures
        r.deep_view() == first_of(a.deep_view(), b.deep_view()),
{
    match a {
        Some(s) => Some(s),
        None => b,
    }
}

fn borrowed(o: &Option<String>) -> (r: Option<&str>)
    ensures
        text_view(r) == o.deep_view(),
{
    match o {
        Some(s) => Some(s.as_str()),
        None => None,
    }
}

fn clean_server(s: Option<String>) -> (r: Option<String>)
    ensures
        r.deep_view() == server_url(s.deep_view()),
{
    match s {
        Some(u) => {
            let t = trimmed(u.as_str());
            if t.as_str().is_empty() {
                None
            } else {
                Some(cut_back(t.as_str(), Sep::Is('/')))
            }
        },
        None => None,
    }
}

/// The server setting that is saved: none where nothing but white space and slashes is left.
pub open spec fn saved_server(s: Option<Seq<char>>) -> Option<Seq<char>> {
    match s {
        Some(u) => filled_in(Some(trim_back(trim(u), Sep::Is('/')))),
        None => None,
    }
}

impl Config {
    pub fn db_path(&self) -> (r: String)
        ensures
            r@ == joined_path(self@.home, "index.db"@),
    {
        join_path(self.home.as_str(), "index.db")
    }

    pub fn previews_path(&self) -> (r: String)
        ensures
            r@ == joined_path(self@.home, "previews.db"@),
    {
        join_path(self.home.as_str(), "previews.db")
    }

    pub fn cache_dir(&self) -> (r: String)
        ensures
            r@ == joined_path(self@.home, "cache"@),
    {
        join_path(self.home.as_str(), "cache")
    }

    pub fn config_file(&self) -> (r: String)
        ensures
            r@ == joined_path(self@.home, "config.json"@),
    {
        join_path(self.home.as_str(), "config.json")
    }

    /// Whether the library is there; `is_dir` says whether its path is a directory.
    pub fn library_mounted(&self, is_dir: bool) -> (r: bool)
        ensures
            r == (self@.library.len() > 0 && is_dir),
    {
        !self.library.as_str().is_empty() && is_dir
    }

    /// The home directory, by flag, environment (`UAI_HOME`) or default.
    pub fn home_dir(flag: Option<&str>, env: Option<&str>, user_home: Option<&str>) -> (r: String)
        ensures
            r@ == home_setting(text_view(flag), text_view(env), text_view(user_home)),
    {
        match or_text(owned(flag), filled_text(env)) {
            Some(s) => expand_tilde(s.as_str(), user_home),
            None => {
                let base: &str = match user_home {
                    Some(h) => h,
                    None => ".",
                };
                join_path(base, ".unity-asset-index")
            },
        }
    }

    /// Resolves the settings. `library` and `server` are explicit overrides (flags), `env_library`
    /// and `env_server` come from the environment, `data` from the settings file. Gives the settings
    /// and what to write where there is no settings file yet.
    pub fn load(
        home: String,
        library: Option<&str>,
        env_library: Option<&str>,
        server: Option<&str>,
        env_server: Option<&str>,
        data: &ConfigFile,
        default_library: &str,
        user_home: Option<&str>,
    ) -> (r: (Config, ConfigFile))
        ensures
            ({
                let lib = library_setting(
                    text_view(library),
                    text_view(env_library),
                    data@.library,
                    default_library@,
                );
                &&& r.0@ == (ConfigView {
                    library: tilde_expanded(lib, text_view(user_home)),
                    home: home@,
                    server: server_setting(text_view(server), text_view(env_server), data@.server),
                })
                &&& r.1@ == (ConfigFileView { library: Some(lib), server: None })
            }),
    {
        let from_file = filled_text(borrowed(&data.library));
        let lib = match or_text(owned(library), or_text(filled_text(env_library), from_file)) {
            Some(s) => s,
            None => default_library.to_string(),
        };
        let srv = clean_server(or_text(owned(server), or_text(owned(env_server), clone_text(&data.server))));
        let cfg = Config { library: expand_tilde(lib.as_str(), user_home), home, server: srv };
        (cfg, ConfigFile { library: Some(lib), server: None })
    }

    /// Takes over another library; gives the settings file to write, `data` being the one there is.
    pub fn save_library(&mut self, library: &str, data: ConfigFile, user_home: Option<&str>) -> (r: ConfigFile)
        ensures
            r@ == (ConfigFileView { library: Some(library@), ..data@ }),
            final(self)@ == (ConfigView {
                library: tilde_expanded(library@, text_view(user_home)),
                ..old(self)@
            }),
    {
        self.library = expand_tilde(library, user_home);
        ConfigFile { library: Some(library.to_string()), server: data.server }
    }

    /// Takes over another server, or none; gives the settings file to write, `data` being the one
    /// there is.
    pub fn save_server(&mut self, server: Option<&str>, data: ConfigFile) -> (r: ConfigFile)
        ensures
            r@ == (ConfigFileView { server: saved_server(text_view(server)), ..data@ }),
            final(self)@ == (ConfigView { server: saved_server(text_view(server)), ..old(self)@ }),
    {
        let url: Option<String> = match server {
            Some(s) => {
                let t = trimmed(s);
                let u = cut_back(t.as_str(), Sep::Is('/'));
                if u.as_str().is_empty() {
                    None
                } else {
                    Some(u)
                }
            },
            None => None,
        };
        self.server = clone_text(&url);
        ConfigFile { library: data.library, server: url }
    }
}

/// A flag outranks the environment, the environment the file, and the file the default.
pub proof fn flags_come_first(
    flag: Option<Seq<char>>,
    env: Option<Seq<char>>,
    file: Option<Seq<char>>,
    default: Seq<char>,
)
    ensures
        flag matches Some(s) ==> library_setting(flag, env, file, default) == s,
        flag is None && (env matches Some(e) && e.len() > 0) ==> library_setting(flag, env, file, default)
            == env->0,
        flag is None && filled_in(env) is None && (file matches Some(f) && f.len() > 0) ==> library_setting(
            flag,
            env,
            file,
            default,
        ) == file->0,
        flag is None && filled_in(env) is None && filled_in(file) is None ==> library_setting(
            flag,
            env,
            file,
            default,
        ) == default,
        flag matches Some(s) ==> server_setting(flag, env, file) == server_url(Some(s)),
{
}

proof fn lemma_trim_back_ends(s: Seq<char>, k: Sep)
    ensures
        trim_back(s, k).len() > 0 ==> !crate::text::cuts(k, trim_back(s, k).last()),
    decreases s.len(),
{
    if s.len() > 0 && crate::text::cuts(k, s.last()) {
        lemma_trim_back_ends(s.drop_last(), k);
    }
}

/// A server URL never ends in a slash.
pub proof fn server_urls_end_without_slash(s: Option<Seq<char>>)
    requires
        server_url(s) is Some,
        server_url(s)->0.len() > 0,
    ensures
        (server_url(s)->0).last() != '/',
{
    lemma_trim_back_ends(trim(s->0), Sep::Is('/'));
}

} // verus!
