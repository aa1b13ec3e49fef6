//! Where AI tools keep their data, below the home directory.
//!
//! The functions name places; whether anything is there is for the caller to see.

use crate::names::{agent_name, agent_name_text, agent_word, agent_word_text};
use crate::text::{starts_with, texts};
use vstd::prelude::*;

verus! {

/// The operating systems that places depend on.
#[derive(Debug, Clone, Copy, PartialEq, Eq, Structural)]
pub enum Platform {
    MacOs,
    Linux,
    Unknown,
}

/// The name of a platform.
pub open spec fn platform_name(platform: Platform) -> Seq<char> {
    match platform {
        Platform::MacOs => "macos"@,
        Platform::Linux => "linux"@,
        Platform::Unknown => "unknown"@,
    }
}

/// The name of the platform of this machine.
pub fn detect_platform(platform: Platform) -> (r: &'static str)
    ensures
        r@ == platform_name(platform),
{
    match platform {
        Platform::MacOs => "macos",
        Platform::Linux => "linux",
        Platform::Unknown => "unknown",
    }
}

/// A path below a directory.
pub open spec fn below(dir: Seq<char>, rest: Seq<char>) -> Seq<char> {
    if dir.len() > 0 && dir.last() != '/' {
        dir + "/"@ + rest
    } else {
        dir + rest
    }
}

/// A path below a directory.
pub fn join_path(dir: &str, rest: &str) -> (r: String)
    ensures
        r@ == below(dir@, rest@),
{
    let mut path = dir.to_string();
    let chars = crate::text::chars_of(dir);
    if chars.len() > 0 && chars[chars.len() - 1] != '/' {
        path.append("/");
    }
    path.append(rest);
    path
}

/// A path below the home directory on a Mac, and another on other systems.
pub open spec fn by_system(
    home: Seq<char>,
    platform: Platform,
    mac: Seq<char>,
    other: Seq<char>,
) -> Seq<char> {
    if platform == Platform::MacOs {
        below(home, mac)
    } else {
        below(home, other)
    }
}

fn path_by_system(home: &str, platform: Platform, mac: &str, other: &str) -> (r: String)
    ensures
        r@ == by_system(home@, platform, mac@, other@),
{
    match platform {
        Platform::MacOs => join_path(home, mac),
        _ => join_path(home, other),
    }
}

/// A path below the home directory on a Mac; none on other systems.
pub open spec fn on_mac(home: Seq<char>, platform: Platform, mac: Seq<char>) -> Seq<Seq<char>> {
    if platform == Platform::MacOs {
        seq![below(home, mac)]
    } else {
        Seq::empty()
    }
}

fn paths_on_mac(home: &str, platform: Platform, mac: &str) -> (r: Vec<String>)
    ensures
        texts(r@) == on_mac(home@, platform, mac@),
{
    let mut r: Vec<String> = Vec::new();
    match platform {
        Platform::MacOs => {
            r.push(join_path(home, mac));
        },
        _ => {},
    }
    assert(texts(r@) =~= on_mac(home@, platform, mac@));
    r
}

/// A directory with the names of what is in it.
pub struct Listing {
    pub dir: String,
    pub names: Vec<String>,
}

/// A path in each profile directory among some names: `Profile 1` and the like.
pub open spec fn in_profiles(dir: Seq<char>, names: Seq<Seq<char>>, rest: Seq<char>) -> Seq<
    Seq<char>,
>
    decreases names.len(),
{
    if names.len() == 0 {
        Seq::empty()
    } else {
        let before = in_profiles(dir, names.drop_last(), rest);
        if "Profile "@.is_prefix_of(names.last()) {
            before.push(below(below(dir, names.last()), rest))
        } else {
            before
        }
    }
}

/// A path in the default profile and in each numbered one.
pub open spec fn in_all_profiles(dir: Seq<char>, names: Seq<Seq<char>>, rest: Seq<char>) -> Seq<
    Seq<char>,
> {
    seq![below(below(dir, "Default"@), rest)] + in_profiles(dir, names, rest)
}

/// A path in each numbered profile, at the end of a list.
fn push_profiles(out: &mut Vec<String>, dir: &str, names: &Vec<String>, rest: &str)
    ensures
        texts(final(out)@) == texts(old(out)@) + in_profiles(dir@, texts(names@), rest@),
{
    let ghost start = texts(out@);
    let ghost all = texts(names@);
    let mut i: usize = 0;
    assert(start + in_profiles(dir@, all.take(0), rest@) =~= start);
    while i < names.len()
        invariant
            i <= names@.len(),
            all == texts(names@),
            texts(out@) == start + in_profiles(dir@, all.take(i as int), rest@),
        decreases names@.len() - i,
    {
        let ghost before = out@;
        proof {
            assert(all.take(i + 1).drop_last() =~= all.take(i as int));
            assert(all.take(i + 1).last() == names@[i as int]@);
        }
        if starts_with(names[i].as_str(), "Profile ") {
            let profile = join_path(dir, names[i].as_str());
            let path = join_path(profile.as_str(), rest);
            out.push(path);
            assert(texts(out@) =~= texts(before).push(path@));
        }
        i += 1;
        assert(texts(out@) =~= start + in_profiles(dir@, all.take(i as int), rest@));
    }
    assert(all.take(i as int) =~= all);
}

/// A path in all profiles of some browsers.
pub open spec fn in_browsers(browsers: Seq<Listing>, rest: Seq<char>) -> Seq<Seq<char>>
    decreases browsers.len(),
{
    if browsers.len() == 0 {
        Seq::empty()
    } else {
        in_browsers(browsers.drop_last(), rest) + in_all_profiles(
            browsers.last().dir@,
            texts(browsers.last().names@),
            rest,
        )
    }
}

/// Every browser has a path in its default profile and in each directory whose name starts with
/// `Profile `, and nowhere else. Browsers add up.
pub proof fn law_every_profile_is_looked_at(
    browsers: Seq<Listing>,
    browser: Listing,
    dir: Seq<char>,
    names: Seq<Seq<char>>,
    name: Seq<char>,
    rest: Seq<char>,
)
    ensures
        in_browsers(browsers.push(browser), rest) == in_browsers(browsers, rest) + in_all_profiles(
            browser.dir@,
            texts(browser.names@),
            rest,
        ),
        in_browsers(Seq::empty(), rest).len() == 0,
        in_all_profiles(dir, Seq::empty(), rest) == seq![below(below(dir, "Default"@), rest)],
        name.len() >= 8 && name.take(8) == "Profile "@ ==> in_all_profiles(
            dir,
            names.push(name),
            rest,
        ) == in_all_profiles(dir, names, rest).push(below(below(dir, name), rest)),
        name.len() < 8 || name.take(8) != "Profile "@ ==> in_all_profiles(
            dir,
            names.push(name),
            rest,
        ) == in_all_profiles(dir, names, rest),
{
    assert(browsers.push(browser).drop_last() =~= browsers);
    assert(names.push(name).drop_last() =~= names);
    reveal_strlit("Profile ");
    let mark = "Profile "@;
    assert(mark.len() == 8);
    let first = seq![below(below(dir, "Default"@), rest)];
    assert(first + Seq::<Seq<char>>::empty() =~= first);
    if name.len() >= 8 && name.take(8) == mark {
        assert(mark.is_prefix_of(name));
    }
    if mark.is_prefix_of(name) {
        assert(name.take(8) =~= mark);
        let known = in_profiles(dir, names, rest);
        let path = below(below(dir, name), rest);
        assert(first + known.push(path) =~= (first + known).push(path));
    }
}

/// Some places are on a Mac only, and some differ between a Mac and other systems.
pub proof fn law_places_go_by_system(home: Seq<char>, mac: Seq<char>, other: Seq<char>)
    ensures
        on_mac(home, Platform::MacOs, mac) == seq![below(home, mac)],
        on_mac(home, Platform::Linux, mac).len() == 0,
        on_mac(home, Platform::Unknown, mac).len() == 0,
        by_system(home, Platform::MacOs, mac, other) == below(home, mac),
        by_system(home, Platform::Linux, mac, other) == below(home, other),
        by_system(home, Platform::Unknown, mac, other) == below(home, other),
{
}

/// A path below a directory starts with the directory and ends with the rest, with one slash between
/// them.
pub proof fn law_path_below(dir: Seq<char>, rest: Seq<char>)
    requires
        dir.len() > 0,
    ensures
        dir.is_prefix_of(below(dir, rest)),
        below(dir, rest).skip(below(dir, rest).len() - rest.len()) == rest,
        dir.last() != '/' ==> below(dir, rest).len() == dir.len() + 1 + rest.len() && below(
            dir,
            rest,
        )[dir.len() as int] == '/',
        dir.last() == '/' ==> below(dir, rest).len() == dir.len() + rest.len(),
{
    reveal_strlit("/");
    let path = below(dir, rest);
    assert(path.take(dir.len() as int) =~= dir);
    assert(path.skip(path.len() - rest.len()) =~= rest);
}

/// A path in all profiles of some browsers.
pub(crate) fn browser_paths(browsers: &Vec<Listing>, rest: &str) -> (r: Vec<String>)
    ensures
        texts(r@) == in_browsers(browsers@, rest@),
{
    let mut r: Vec<String> = Vec::new();
    let mut i: usize = 0;
    assert(texts(r@) =~= in_browsers(browsers@.take(0), rest@));
    while i < browsers.len()
        invariant
            i <= browsers@.len(),
            texts(r@) == in_browsers(browsers@.take(i as int), rest@),
        decreases browsers@.len() - i,
    {
        assert(browsers@.take(i + 1).drop_last() =~= browsers@.take(i as int));
        let ghost before = texts(r@);
        let dir = browsers[i].dir.as_str();
        let default = join_path(dir, "Default");
        r.push(join_path(default.as_str(), rest));
        assert(texts(r@) =~= before + seq![below(below(dir@, "Default"@), rest@)]);
        push_profiles(&mut r, dir, &browsers[i].names, rest);
        i += 1;
        assert(texts(r@) =~= in_browsers(browsers@.take(i as int), rest@));
    }
    assert(browsers@.take(i as int) =~= browsers@);
    r
}

/// Where Chromium browsers keep their profiles on a Mac.
pub open spec fn chromium_dirs(home: Seq<char>) -> Seq<Seq<char>> {
    seq![
        below(home, "Library/Application Support/Google/Chrome"@),
        below(home, "Library/Application Support/Arc/User Data"@),
        below(home, "Library/Application Support/BraveSoftware/Brave-Browser"@),
        below(home, "Library/Application Support/Microsoft Edge"@),
        below(home, "Library/Application Support/Dia/User Data"@),
    ]
}

/// Where Chromium browsers keep their profiles on a Mac.
pub fn chromium_profile_dirs(home: &str) -> (r: Vec<String>)
    ensures
        texts(r@) == chromium_dirs(home@),
{
    let r: Vec<String> = vec![
        join_path(home, "Library/Application Support/Google/Chrome"),
        join_path(home, "Library/Application Support/Arc/User Data"),
        join_path(home, "Library/Application Support/BraveSoftware/Brave-Browser"),
        join_path(home, "Library/Application Support/Microsoft Edge"),
        join_path(home, "Library/Application Support/Dia/User Data"),
    ];
    assert(texts(r@) =~= chromium_dirs(home@));
    r
}

/// The history databases of Chrome. `names` is what is in its directory of profiles on a Mac.
pub fn chrome_history_paths(home: &str, platform: Platform, names: &Vec<String>) -> (r: Vec<String>)
    ensures
        texts(r@) == if platform == Platform::MacOs {
            in_all_profiles(
                below(home@, "Library/Application Support/Google/Chrome"@),
                texts(names@),
                "History"@,
            )
        } else {
            seq![below(home@, ".config/google-chrome/Default/History"@)]
        },
{
    let mut r: Vec<String> = Vec::new();
    match platform {
        Platform::MacOs => {
            let dir = join_path(home, "Library/Application Support/Google/Chrome");
            let default = join_path(dir.as_str(), "Default");
            r.push(join_path(default.as_str(), "History"));
            assert(texts(r@) =~= seq![below(below(dir@, "Default"@), "History"@)]);
            push_profiles(&mut r, dir.as_str(), names, "History");
        },
        _ => {
            r.push(join_path(home, ".config/google-chrome/Default/History"));
            assert(texts(r@) =~= seq![below(home@, ".config/google-chrome/Default/History"@)]);
        },
    }
    r
}

/// The session logs of `claude_code`.
pub fn claude_projects_dir(home: &str) -> (r: String)
    ensures
        r@ == below(home@, "."@ + agent_word() + "/projects"@),
{
    let rest = ".".to_string().concat(agent_word_text().as_str()).concat("/projects");
    join_path(home, rest.as_str())
}

/// The data directory of Codex.
pub fn codex_dir(home: &str) -> (r: String)
    ensures
        r@ == below(home@, ".codex"@),
{
    join_path(home, ".codex")
}

/// The database of threads of Codex.
pub fn codex_sqlite(home: &str) -> (r: String)
    ensures
        r@ == below(home@, ".codex/state_5.sqlite"@),
{
    join_path(home, ".codex/state_5.sqlite")
}

/// The session logs of Codex.
pub fn codex_sessions_dir(home: &str) -> (r: String)
    ensures
        r@ == below(home@, ".codex/sessions"@),
{
    join_path(home, ".codex/sessions")
}

/// The history databases of Arc.
pub fn arc_history_paths(home: &str, platform: Platform) -> (r: Vec<String>)
    ensures
        texts(r@) == on_mac(home@, platform, "Library/Application Support/Arc/User Data/Default/History"@),
{
    paths_on_mac(home, platform, "Library/Application Support/Arc/User Data/Default/History")
}

/// The history database of Brave.
pub fn brave_history_paths(home: &str, platform: Platform) -> (r: String)
    ensures
        r@ == by_system(
            home@,
            platform,
            "Library/Application Support/BraveSoftware/Brave-Browser/Default/History"@,
            ".config/BraveSoftware/Brave-Browser/Default/History"@,
        ),
{
    path_by_system(
        home,
        platform,
        "Library/Application Support/BraveSoftware/Brave-Browser/Default/History",
        ".config/BraveSoftware/Brave-Browser/Default/History",
    )
}

/// The history database of Edge.
pub fn edge_history_paths(home: &str, platform: Platform) -> (r: String)
    ensures
        r@ == by_system(
            home@,
            platform,
            "Library/Application Support/Microsoft Edge/Default/History"@,
            ".config/microsoft-edge/Default/History"@,
        ),
{
    path_by_system(
        home,
        platform,
        "Library/Application Support/Microsoft Edge/Default/History",
        ".config/microsoft-edge/Default/History",
    )
}

/// The history databases of Dia.
pub fn dia_history_paths(home: &str, platform: Platform) -> (r: Vec<String>)
    ensures
        texts(r@) == on_mac(home@, platform, "Library/Application Support/Dia/User Data/Default/History"@),
{
    paths_on_mac(home, platform, "Library/Application Support/Dia/User Data/Default/History")
}

/// The history database of Safari.
pub fn safari_history_path(home: &str, platform: Platform) -> (r: Vec<String>)
    ensures
        texts(r@) == on_mac(home@, platform, "Library/Safari/History.db"@),
{
    paths_on_mac(home, platform, "Library/Safari/History.db")
}

/// A pattern for the history databases of Firefox.
pub fn firefox_history_pattern(home: &str, platform: Platform) -> (r: String)
    ensures
        r@ == by_system(
            home@,
            platform,
            "Library/Application Support/Firefox/Profiles/*/places.sqlite"@,
            ".mozilla/firefox/*/places.sqlite"@,
        ),
{
    path_by_system(
        home,
        platform,
        "Library/Application Support/Firefox/Profiles/*/places.sqlite",
        ".mozilla/firefox/*/places.sqlite",
    )
}

/// The session logs of `claude_desktop`.
pub fn claude_desktop_sessions_dir(home: &str, platform: Platform) -> (r: Vec<String>)
    ensures
        texts(r@) == on_mac(
            home@,
            platform,
            "Library/Application Support/"@ + agent_name() + "/local-agent-mode-sessions"@,
        ),
{
    let rest = "Library/Application Support/".to_string().concat(
        agent_name_text().as_str(),
    ).concat("/local-agent-mode-sessions");
    paths_on_mac(home, platform, rest.as_str())
}

/// The data directory of ChatGPT Desktop.
pub fn chatgpt_desktop_dir(home: &str, platform: Platform) -> (r: Vec<String>)
    ensures
        texts(r@) == on_mac(home@, platform, "Library/Application Support/com.openai.chat"@),
{
    paths_on_mac(home, platform, "Library/Application Support/com.openai.chat")
}

/// The data directories of ChatGPT Desktop and of Atlas.
pub fn chatgpt_desktop_dirs(home: &str, platform: Platform) -> (r: Vec<String>)
    ensures
        texts(r@) == on_mac(home@, platform, "Library/Application Support/com.openai.chat"@)
            + on_mac(home@, platform, "Library/Application Support/com.openai.atlas"@),
{
    let mut r = chatgpt_desktop_dir(home, platform);
    let mut atlas = paths_on_mac(
        home,
        platform,
        "Library/Application Support/com.openai.atlas",
    );
    let ghost first = r@;
    let ghost second = atlas@;
    r.append(&mut atlas);
    assert(texts(r@) =~= texts(first) + texts(second));
    r
}

/// The databases that Warp may have, in the order in which they are tried.
pub fn warp_sqlite_path(home: &str, platform: Platform) -> (r: Vec<String>)
    ensures
        texts(r@) == on_mac(
            home@,
            platform,
            "Library/Application Support/dev.warp.Warp-Stable/warp.sqlite"@,
        ) + on_mac(home@, platform, "Library/Application Support/dev.warp.Warp/warp.sqlite"@),
{
    let mut r = paths_on_mac(
        home,
        platform,
        "Library/Application Support/dev.warp.Warp-Stable/warp.sqlite",
    );
    let mut other = paths_on_mac(
        home,
        platform,
        "Library/Application Support/dev.warp.Warp/warp.sqlite",
    );
    let ghost first = r@;
    let ghost second = other@;
    r.append(&mut other);
    assert(texts(r@) =~= texts(first) + texts(second));
    r
}

/// The state database of Cursor.
pub fn cursor_state_db(home: &str, platform: Platform) -> (r: String)
    ensures
        r@ == by_system(
            home@,
            platform,
            "Library/Application Support/Cursor/User/globalStorage/state.vscdb"@,
            ".config/Cursor/User/globalStorage/state.vscdb"@,
        ),
{
    path_by_system(
        home,
        platform,
        "Library/Application Support/Cursor/User/globalStorage/state.vscdb",
        ".config/Cursor/User/globalStorage/state.vscdb",
    )
}

/// The data directory of Gemini CLI.
pub fn gemini_dir(home: &str) -> (r: String)
    ensures
        r@ == below(home@, ".gemini"@),
{
    join_path(home, ".gemini")
}

/// The workspaces of VS Code.
pub fn vscode_workspace_storage_dir(home: &str, platform: Platform) -> (r: String)
    ensures
        r@ == by_system(
            home@,
            platform,
            "Library/Application Support/Code/User/workspaceStorage"@,
            ".config/Code/User/workspaceStorage"@,
        ),
{
    path_by_system(
        home,
        platform,
        "Library/Application Support/Code/User/workspaceStorage",
        ".config/Code/User/workspaceStorage",
    )
}

/// The directory of JetBrains.
pub fn jetbrains_dir(home: &str, platform: Platform) -> (r: String)
    ensures
        r@ == by_system(
            home@,
            platform,
            "Library/Application Support/JetBrains"@,
            ".config/JetBrains"@,
        ),
{
    path_by_system(
        home,
        platform,
        "Library/Application Support/JetBrains",
        ".config/JetBrains",
    )
}

/// The history of zsh.
pub fn zsh_history_path(home: &str) -> (r: String)
    ensures
        r@ == below(home@, ".zsh_history"@),
{
    join_path(home, ".zsh_history")
}

/// The history of bash.
pub fn bash_history_path(home: &str) -> (r: String)
    ensures
        r@ == below(home@, ".bash_history"@),
{
    join_path(home, ".bash_history")
}

/// The history of fish.
pub fn fish_history_path(home: &str) -> (r: String)
    ensures
        r@ == below(home@, ".local/share/fish/fish_history"@),
{
    join_path(home, ".local/share/fish/fish_history")
}

/// The history of Aider.
pub fn aider_history_path(home: &str) -> (r: String)
    ensures
        r@ == below(home@, ".aider.history"@),
{
    join_path(home, ".aider.history")
}

/// The data directory of Continue.
pub fn continue_dir(home: &str) -> (r: String)
    ensures
        r@ == below(home@, ".continue"@),
{
    join_path(home, ".continue")
}

/// The models of Ollama.
pub fn ollama_models_dir(home: &str) -> (r: String)
    ensures
        r@ == below(home@, ".ollama/models"@),
{
    join_path(home, ".ollama/models")
}

/// The directory of Codeium.
pub fn codeium_dir(home: &str) -> (r: String)
    ensures
        r@ == below(home@, ".codeium"@),
{
    join_path(home, ".codeium")
}

/// The directory of Tabnine.
pub fn tabnine_dir(home: &str) -> (r: String)
    ensures
        r@ == below(home@, ".tabnine"@),
{
    join_path(home, ".tabnine")
}

/// The directory of Amazon Q.
pub fn amazon_q_dir(home: &str) -> (r: String)
    ensures
        r@ == below(home@, ".aws/amazonq"@),
{
    join_path(home, ".aws/amazonq")
}

/// The directory of Supermaven.
pub fn supermaven_dir(home: &str) -> (r: String)
    ensures
        r@ == below(home@, ".supermaven"@),
{
    join_path(home, ".supermaven")
}

/// The directory of Roo Code.
pub fn roo_dir(home: &str) -> (r: String)
    ensures
        r@ == below(home@, ".roo"@),
{
    join_path(home, ".roo")
}

/// The data directory of OpenCode.
pub fn opencode_data_dir(home: &str) -> (r: String)
    ensures
        r@ == below(home@, ".local/share/opencode"@),
{
    join_path(home, ".local/share/opencode")
}

/// The database of OpenCode.
pub fn opencode_sqlite_path(home: &str) -> (r: String)
    ensures
        r@ == below(home@, ".local/share/opencode/opencode.db"@),
{
    join_path(home, ".local/share/opencode/opencode.db")
}

/// The threads of Amp.
pub fn amp_threads_dir(home: &str) -> (r: String)
    ensures
        r@ == below(home@, ".local/share/amp/threads"@),
{
    join_path(home, ".local/share/amp/threads")
}

/// The sessions of Droid.
pub fn droid_sessions_dir(home: &str) -> (r: String)
    ensures
        r@ == below(home@, ".factory/sessions"@),
{
    join_path(home, ".factory/sessions")
}

/// The sessions of Kimi CLI.
pub fn kimi_sessions_dir(home: &str) -> (r: String)
    ensures
        r@ == below(home@, ".kimi/sessions"@),
{
    join_path(home, ".kimi/sessions")
}

/// The configuration of Kimi CLI.
pub fn kimi_config_path(home: &str) -> (r: String)
    ensures
        r@ == below(home@, ".kimi/config.json"@),
{
    join_path(home, ".kimi/config.json")
}

/// The projects of Qwen CLI.
pub fn qwen_projects_dir(home: &str) -> (r: String)
    ensures
        r@ == below(home@, ".qwen/projects"@),
{
    join_path(home, ".qwen/projects")
}

/// The directories of OpenClaw, under its name and those that it had before.
pub open spec fn openclaw_places(home: Seq<char>) -> Seq<Seq<char>> {
    seq![
        below(home, ".openclaw"@),
        below(home, ".clawdbot"@),
        below(home, ".moltbot"@),
        below(home, ".moldbot"@),
    ]
}

/// The directories of OpenClaw, under its name and those that it had before.
pub fn openclaw_dirs(home: &str) -> (r: Vec<String>)
    ensures
        texts(r@) == openclaw_places(home@),
{
    let r: Vec<String> = vec![
        join_path(home, ".openclaw"),
        join_path(home, ".clawdbot"),
        join_path(home, ".moltbot"),
        join_path(home, ".moldbot"),
    ];
    assert(texts(r@) =~= openclaw_places(home@));
    r
}

/// Where the program of Windsurf may stand.
pub open spec fn windsurf_places(home: Seq<char>) -> Seq<Seq<char>> {
    seq![
        "/usr/local/bin/windsurf"@,
        "/opt/homebrew/bin/windsurf"@,
        below(home, ".local/bin/windsurf"@),
    ]
}

/// Where the program of Windsurf may stand.
pub fn windsurf_paths(home: &str) -> (r: Vec<String>)
    ensures
        texts(r@) == windsurf_places(home@),
{
    let r: Vec<String> = vec![
        "/usr/local/bin/windsurf".to_string(),
        "/opt/homebrew/bin/windsurf".to_string(),
        join_path(home, ".local/bin/windsurf"),
    ];
    assert(texts(r@) =~= windsurf_places(home@));
    r
}

} // verus!
