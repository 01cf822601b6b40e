//! The app-level configuration: known repositories and appearance preferences, and
//! the rules that bring a stored config back into range.
//!
//! The interface scale is a float and is snapped where the config is read and written;
//! every other preference is normalised here.
use vstd::prelude::*;
use crate::text::{
    all_hex, all_hex_exec, chars_of, lemma_lower_props, lemma_lower_trim, lemma_trim_idempotent, lemma_trim_noop,
    lower_chars, lower_seq, owned, slice_chars, str_eq, string_of, trim, trim_chars, trim_str,
};

verus! {

broadcast use vstd::seq_lib::group_seq_properties;

pub fn default_true() -> (r: bool)
    ensures
        r,
{
    true
}

pub fn default_terminal_font_size() -> (r: u16)
    ensures
        r == 13,
{
    13
}

pub fn default_artifact_font_size() -> (r: u16)
    ensures
        r == 14,
{
    14
}

pub fn default_artifact_viewer_width() -> (r: u16)
    ensures
        r == 360,
{
    360
}

pub fn default_chat_font_size() -> (r: u16)
    ensures
        r == 14,
{
    14
}

pub fn default_chat_rail_font_size() -> (r: u16)
    ensures
        r == 12,
{
    12
}

pub fn default_chat_rail_density() -> (r: String)
    ensures
        r@ == "normal"@,
{
    owned("normal")
}

pub fn default_chat_max_width() -> (r: String)
    ensures
        r@ == "900"@,
{
    owned("900")
}

pub fn default_session_default_view() -> (r: String)
    ensures
        r@ == "chat"@,
{
    owned("chat")
}

pub fn default_appearance_mode() -> (r: String)
    ensures
        r@ == "system"@,
{
    owned("system")
}

pub fn default_accent_color() -> (r: String)
    ensures
        r@ == "#315bff"@,
{
    owned("#315bff")
}

/// Appearance preferences, all but the interface scale.
pub struct AppearancePrefs {
    pub accent_color: String,
    pub terminal_font_size: u16,
    pub artifact_font_size: u16,
    pub artifact_viewer_width: u16,
    pub chat_show_thinking: bool,
    pub chat_expand_thinking: bool,
    pub chat_show_tools: bool,
    pub chat_expand_tools: bool,
    pub chat_show_harness: bool,
    pub chat_show_turn_markers: bool,
    pub chat_show_subagent_rows: bool,
    pub chat_show_subagent_drawer: bool,
    pub chat_auto_collapse_thinking: bool,
    pub chat_auto_compaction: bool,
    pub chat_auto_scroll: bool,
    pub chat_rail_density: String,
    pub chat_font_size: u16,
    pub chat_rail_font_size: u16,
    pub chat_show_meta: bool,
    pub chat_show_composer_hints: bool,
    pub chat_max_width: String,
    pub chat_show_date: bool,
    pub chat_show_time: bool,
    pub chat_show_actor_labels: bool,
    pub chat_show_agent_bubbles: bool,
    pub session_default_view: String,
    /// `"system"`, `"light"` or `"dark"`.
    pub mode: String,
}

/// The preferences of a fresh install.
pub open spec fn is_default_appearance(p: AppearancePrefs) -> bool {
    &&& p.accent_color@ == "#315bff"@
    &&& p.terminal_font_size == 13
    &&& p.artifact_font_size == 14
    &&& p.artifact_viewer_width == 360
    &&& !p.chat_show_thinking
    &&& !p.chat_expand_thinking
    &&& !p.chat_show_tools
    &&& !p.chat_expand_tools
    &&& p.chat_show_harness
    &&& !p.chat_show_turn_markers
    &&& p.chat_show_subagent_rows
    &&& p.chat_show_subagent_drawer
    &&& p.chat_auto_collapse_thinking
    &&& p.chat_auto_compaction
    &&& p.chat_auto_scroll
    &&& p.chat_rail_density@ == "normal"@
    &&& p.chat_font_size == 14
    &&& p.chat_rail_font_size == 12
    &&& p.chat_show_meta
    &&& p.chat_show_composer_hints
    &&& p.chat_max_width@ == "900"@
    &&& p.chat_show_date
    &&& p.chat_show_time
    &&& p.chat_show_actor_labels
    &&& p.chat_show_agent_bubbles
    &&& p.session_default_view@ == "chat"@
    &&& p.mode@ == "system"@
}

impl Default for AppearancePrefs {
    fn default() -> (r: Self)
        ensures
            is_default_appearance(r),
    {
        AppearancePrefs {
            accent_color: default_accent_color(),
            terminal_font_size: default_terminal_font_size(),
            artifact_font_size: default_artifact_font_size(),
            artifact_viewer_width: default_artifact_viewer_width(),
            chat_show_thinking: false,
            chat_expand_thinking: false,
            chat_show_tools: false,
            chat_expand_tools: false,
            chat_show_harness: true,
            chat_show_turn_markers: false,
            chat_show_subagent_rows: true,
            chat_show_subagent_drawer: true,
            chat_auto_collapse_thinking: true,
            chat_auto_compaction: true,
            chat_auto_scroll: true,
            chat_rail_density: default_chat_rail_density(),
            chat_font_size: default_chat_font_size(),
            chat_rail_font_size: default_chat_rail_font_size(),
            chat_show_meta: true,
            chat_show_composer_hints: true,
            chat_max_width: default_chat_max_width(),
            chat_show_date: true,
            chat_show_time: true,
            chat_show_actor_labels: true,
            chat_show_agent_bubbles: true,
            session_default_view: default_session_default_view(),
            mode: default_appearance_mode(),
        }
    }
}

/// The known repositories, trimmed, without blanks, each kept once at its first place.
pub open spec fn dedupe(repos: Seq<Seq<char>>) -> Seq<Seq<char>>
    decreases repos.len(),
{
    if repos.len() == 0 {
        seq![]
    } else {
        let d = dedupe(repos.drop_last());
        let t = trim(repos.last());
        if t.len() > 0 && !d.contains(t) {
            d.push(t)
        } else {
            d
        }
    }
}

/// The views of a list of strings.
pub open spec fn views(v: Seq<String>) -> Seq<Seq<char>> {
    v.map_values(|s: String| s@)
}

fn contains_string(v: &Vec<String>, s: &String) -> (r: bool)
    ensures
        r == views(v@).contains(s@),
{
    let mut i: usize = 0;
    while i < v.len()
        invariant
            i <= v@.len(),
            forall|k: int| 0 <= k < i ==> v@[k]@ != s@,
        decreases v@.len() - i,
    {
        if str_eq(v[i].as_str(), s.as_str()) {
            assert(views(v@)[i as int] == s@);
            return true;
        }
        i = i + 1;
    }
    assert forall|k: int| 0 <= k < views(v@).len() implies views(v@)[k] != s@ by {
        assert(views(v@)[k] == v@[k]@);
    }
    false
}

/// Normalise the known-repository list.
pub fn dedupe_known_repos(repos: Vec<String>) -> (r: Vec<String>)
    ensures
        views(r@) == dedupe(views(repos@)),
{
    let ghost whole = views(repos@);
    let mut out: Vec<String> = Vec::new();
    let mut i: usize = 0;
    assert(whole.take(0) =~= Seq::<Seq<char>>::empty());
    assert(views(out@) =~= Seq::<Seq<char>>::empty());
    while i < repos.len()
        invariant
            whole == views(repos@),
            i <= repos@.len(),
            views(out@) == dedupe(whole.take(i as int)),
        decreases repos@.len() - i,
    {
        let t = trim_str(repos[i].as_str());
        proof {
            assert(whole.take(i + 1).drop_last() =~= whole.take(i as int));
            assert(whole.take(i + 1).last() == repos@[i as int]@);
        }
        if t.as_str().unicode_len() > 0 && !contains_string(&out, &t) {
            out.push(t);
            assert(views(out@) =~= dedupe(whole.take(i as int)).push(trim(repos@[i as int]@)));
        }
        i = i + 1;
    }
    assert(whole.take(i as int) =~= whole);
    out
}

/// `#rrggbb` after trimming: seven chars, a `#`, then six hex digits.
pub open spec fn hex_rgb(value: Seq<char>) -> bool {
    let t = trim(value);
    t.len() == 7 && t[0] == '#' && all_hex(t.subrange(1, 7))
}

/// Whether `value` is a usable accent colour.
pub fn is_hex_rgb(value: &str) -> (r: bool)
    ensures
        r == hex_rgb(value@),
{
    let v = chars_of(value);
    let t = trim_chars(&v);
    if t.len() != 7 || t[0] != '#' {
        return false;
    }
    let rest = slice_chars(&t, 1, 7);
    all_hex_exec(rest.as_slice())
}

/// `v` held between `lo` and `hi`.
pub open spec fn clamp(v: u16, lo: u16, hi: u16) -> u16 {
    if v < lo {
        lo
    } else if v > hi {
        hi
    } else {
        v
    }
}

fn clamp_u16(v: u16, lo: u16, hi: u16) -> (r: u16)
    requires
        lo <= hi,
    ensures
        r == clamp(v, lo, hi),
{
    if v < lo {
        lo
    } else if v > hi {
        hi
    } else {
        v
    }
}

/// The stored colour mode, or `"system"`.
pub open spec fn mode_of(m: Seq<char>) -> Seq<char> {
    let t = trim(m);
    if t == "system"@ || t == "light"@ || t == "dark"@ {
        t
    } else {
        "system"@
    }
}

/// The accent colour, lowercased, or the default.
pub open spec fn accent_of(a: Seq<char>) -> Seq<char> {
    let l = lower_seq(trim(a));
    if hex_rgb(l) {
        l
    } else {
        "#315bff"@
    }
}

/// The rail density: `"compact"` reads as `"dense"`; anything unknown as `"normal"`.
pub open spec fn density_of(d: Seq<char>) -> Seq<char> {
    let t = trim(d);
    if t == "dense"@ || t == "compact"@ {
        "dense"@
    } else if t == "comfortable"@ {
        "comfortable"@
    } else {
        "normal"@
    }
}

/// One of the offered chat widths, or `"900"`.
pub open spec fn max_width_of(w: Seq<char>) -> Seq<char> {
    let t = trim(w);
    if t == "600"@ || t == "900"@ || t == "1200"@ || t == "none"@ {
        t
    } else {
        "900"@
    }
}

/// `"terminal"`, or `"chat"`.
pub open spec fn view_of(v: Seq<char>) -> Seq<char> {
    if trim(v) == "terminal"@ {
        "terminal"@
    } else {
        "chat"@
    }
}

/// `out` is `p` brought into range; the switches are kept as they are.
pub open spec fn sanitized(out: AppearancePrefs, p: AppearancePrefs) -> bool {
    &&& out.accent_color@ == accent_of(p.accent_color@)
    &&& out.terminal_font_size == clamp(p.terminal_font_size, 8, 22)
    &&& out.artifact_font_size == clamp(p.artifact_font_size, 10, 22)
    &&& out.artifact_viewer_width == clamp(p.artifact_viewer_width, 260, 2400)
    &&& out.chat_show_thinking == p.chat_show_thinking
    &&& out.chat_expand_thinking == p.chat_expand_thinking
    &&& out.chat_show_tools == p.chat_show_tools
    &&& out.chat_expand_tools == p.chat_expand_tools
    &&& out.chat_show_harness == p.chat_show_harness
    &&& out.chat_show_turn_markers == p.chat_show_turn_markers
    &&& out.chat_show_subagent_rows == p.chat_show_subagent_rows
    &&& out.chat_show_subagent_drawer == p.chat_show_subagent_drawer
    &&& out.chat_auto_collapse_thinking == p.chat_auto_collapse_thinking
    &&& out.chat_auto_compaction == p.chat_auto_compaction
    &&& out.chat_auto_scroll == p.chat_auto_scroll
    &&& out.chat_rail_density@ == density_of(p.chat_rail_density@)
    &&& out.chat_font_size == clamp(p.chat_font_size, 10, 22)
    &&& out.chat_rail_font_size == clamp(p.chat_rail_font_size, 10, 22)
    &&& out.chat_show_meta == p.chat_show_meta
    &&& out.chat_show_composer_hints == p.chat_show_composer_hints
    &&& out.chat_max_width@ == max_width_of(p.chat_max_width@)
    &&& out.chat_show_date == p.chat_show_date
    &&& out.chat_show_time == p.chat_show_time
    &&& out.chat_show_actor_labels == p.chat_show_actor_labels
    &&& out.chat_show_agent_bubbles == p.chat_show_agent_bubbles
    &&& out.session_default_view@ == view_of(p.session_default_view@)
    &&& out.mode@ == mode_of(p.mode@)
}

fn one_of(t: &str, a: &str, b: &str, c: &str) -> (r: bool)
    ensures
        r == (t@ == a@ || t@ == b@ || t@ == c@),
{
    str_eq(t, a) || str_eq(t, b) || str_eq(t, c)
}

/// Bring stored appearance preferences into range: unknown words fall back to their
/// defaults and sizes are clamped.
pub fn sanitize_appearance(prefs: AppearancePrefs) -> (r: AppearancePrefs)
    ensures
        sanitized(r, prefs),
{
    let mode_t = trim_str(prefs.mode.as_str());
    let mode = if one_of(mode_t.as_str(), "system", "light", "dark") {
        mode_t
    } else {
        default_appearance_mode()
    };
    let accent_v = chars_of(prefs.accent_color.as_str());
    let accent_t = trim_chars(&accent_v);
    let accent_l = string_of(lower_chars(accent_t.as_slice()).as_slice());
    let accent_color = if is_hex_rgb(accent_l.as_str()) {
        accent_l
    } else {
        default_accent_color()
    };
    let density_t = trim_str(prefs.chat_rail_density.as_str());
    let chat_rail_density = if str_eq(density_t.as_str(), "dense") || str_eq(density_t.as_str(), "compact") {
        owned("dense")
    } else if str_eq(density_t.as_str(), "comfortable") {
        owned("comfortable")
    } else if str_eq(density_t.as_str(), "normal") {
        owned("normal")
    } else {
        default_chat_rail_density()
    };
    let width_t = trim_str(prefs.chat_max_width.as_str());
    let chat_max_width = if one_of(width_t.as_str(), "600", "900", "1200") || str_eq(width_t.as_str(), "none") {
        width_t
    } else {
        default_chat_max_width()
    };
    let view_t = trim_str(prefs.session_default_view.as_str());
    let session_default_view = if str_eq(view_t.as_str(), "terminal") {
        owned("terminal")
    } else {
        default_session_default_view()
    };
    AppearancePrefs {
        accent_color,
        terminal_font_size: clamp_u16(prefs.terminal_font_size, 8, 22),
        artifact_font_size: clamp_u16(prefs.artifact_font_size, 10, 22),
        artifact_viewer_width: clamp_u16(prefs.artifact_viewer_width, 260, 2400),
        chat_show_thinking: prefs.chat_show_thinking,
        chat_expand_thinking: prefs.chat_expand_thinking,
        chat_show_tools: prefs.chat_show_tools,
        chat_expand_tools: prefs.chat_expand_tools,
        chat_show_harness: prefs.chat_show_harness,
        chat_show_turn_markers: prefs.chat_show_turn_markers,
        chat_show_subagent_rows: prefs.chat_show_subagent_rows,
        chat_show_subagent_drawer: prefs.chat_show_subagent_drawer,
        chat_auto_collapse_thinking: prefs.chat_auto_collapse_thinking,
        chat_auto_compaction: prefs.chat_auto_compaction,
        chat_auto_scroll: prefs.chat_auto_scroll,
        chat_rail_density,
        chat_font_size: clamp_u16(prefs.chat_font_size, 10, 22),
        chat_rail_font_size: clamp_u16(prefs.chat_rail_font_size, 10, 22),
        chat_show_meta: prefs.chat_show_meta,
        chat_show_composer_hints: prefs.chat_show_composer_hints,
        chat_max_width,
        chat_show_date: prefs.chat_show_date,
        chat_show_time: prefs.chat_show_time,
        chat_show_actor_labels: prefs.chat_show_actor_labels,
        chat_show_agent_bubbles: prefs.chat_show_agent_bubbles,
        session_default_view,
        mode,
    }
}

/// The app configuration, but for the interface scale and the global harness settings.
pub struct AppConfig {
    pub active_repo: String,
    pub known_repos: Vec<String>,
    pub mcp_enabled: bool,
    pub appearance: AppearancePrefs,
    pub settings_version: u32,
}

/// Each entry of `s` is non-blank, trimmed, and listed once.
pub open spec fn clean_list(s: Seq<Seq<char>>) -> bool {
    &&& forall|i: int| 0 <= i < s.len() ==> (#[trigger] s[i]).len() > 0 && trim(s[i]) == s[i]
    &&& forall|i: int, j: int| 0 <= i < j < s.len() ==> #[trigger] s[i] != #[trigger] s[j]
}

proof fn lemma_dedupe_clean(repos: Seq<Seq<char>>)
    ensures
        clean_list(dedupe(repos)),
        forall|k: int| 0 <= k < repos.len() && trim(#[trigger] repos[k]).len() > 0 ==> dedupe(repos).contains(trim(repos[k])),
        forall|k: int| 0 <= k < dedupe(repos).len() ==> exists|j: int| 0 <= j < repos.len() && #[trigger] dedupe(repos)[k] == trim(#[trigger] repos[j]),
    decreases repos.len(),
{
    if repos.len() > 0 {
        let d0 = repos.drop_last();
        lemma_dedupe_clean(d0);
        let d = dedupe(d0);
        let t = trim(repos.last());
        lemma_trim_idempotent(repos.last());
        assert forall|k: int| 0 <= k < repos.len() && trim(#[trigger] repos[k]).len() > 0 implies dedupe(repos).contains(trim(repos[k])) by {
            if k < repos.len() - 1 {
                assert(repos[k] == d0[k]);
                let w = choose|w: int| 0 <= w < d.len() && d[w] == trim(d0[k]);
                assert(dedupe(repos)[w] == d[w]);
            } else if t.len() > 0 && !d.contains(t) {
                assert(dedupe(repos)[d.len() as int] == t);
            } else {
                assert(repos[k] == repos.last());
            }
        }
        let dr = dedupe(repos);
        assert forall|k: int| 0 <= k < dr.len() implies exists|j: int| 0 <= j < repos.len() && #[trigger] dr[k] == trim(#[trigger] repos[j]) by {
            if k < d.len() {
                assert(dr[k] == d[k]);
                let j = choose|j: int| 0 <= j < d0.len() && d[k] == trim(d0[j]);
                assert(repos[j] == d0[j]);
            } else {
                assert(dr[k] == trim(repos[repos.len() - 1]));
            }
        }
    }
}

/// Deduplicating a clean list changes nothing.
proof fn lemma_dedupe_of_clean(s: Seq<Seq<char>>)
    requires
        clean_list(s),
    ensures
        dedupe(s) == s,
    decreases s.len(),
{
    if s.len() > 0 {
        let d0 = s.drop_last();
        assert(clean_list(d0)) by {
            assert forall|i: int| 0 <= i < d0.len() implies (#[trigger] d0[i]).len() > 0 && trim(d0[i]) == d0[i] by {
                assert(d0[i] == s[i]);
            }
            assert forall|i: int, j: int| 0 <= i < j < d0.len() implies #[trigger] d0[i] != #[trigger] d0[j] by {
                assert(d0[i] == s[i] && d0[j] == s[j]);
            }
        }
        lemma_dedupe_of_clean(d0);
        assert(s.last() == s[s.len() - 1]);
        assert(!d0.contains(s.last())) by {
            if d0.contains(s.last()) {
                let w = choose|w: int| 0 <= w < d0.len() && d0[w] == s.last();
                assert(s[w] == d0[w]);
            }
        }
        assert(d0.push(s.last()) =~= s);
    }
}

/// The known-repository list keeps every repository once, trimmed, without blanks, and
/// no repository that was listed goes missing; normalising it again changes nothing.
pub proof fn law_dedupe_known_repos(repos: Seq<Seq<char>>)
    ensures
        clean_list(dedupe(repos)),
        forall|k: int| 0 <= k < repos.len() && trim(#[trigger] repos[k]).len() > 0 ==> dedupe(repos).contains(trim(repos[k])),
        dedupe(dedupe(repos)) == dedupe(repos),
{
    lemma_dedupe_clean(repos);
    lemma_dedupe_of_clean(dedupe(repos));
}

proof fn lemma_literal_trimmed(s: Seq<char>)
    requires
        s.len() > 0,
        !crate::text::is_ws(s[0]),
        !crate::text::is_ws(s.last()),
    ensures
        trim(s) == s,
{
    lemma_trim_noop(s);
}

proof fn lemma_fields_idempotent(a: Seq<char>, m: Seq<char>, d: Seq<char>, w: Seq<char>, v: Seq<char>)
    ensures
        accent_of(accent_of(a)) == accent_of(a),
        mode_of(mode_of(m)) == mode_of(m),
        density_of(density_of(d)) == density_of(d),
        max_width_of(max_width_of(w)) == max_width_of(w),
        view_of(view_of(v)) == view_of(v),
{
    reveal_strlit("#315bff");
    reveal_strlit("system");
    reveal_strlit("light");
    reveal_strlit("dark");
    reveal_strlit("dense");
    reveal_strlit("compact");
    reveal_strlit("comfortable");
    reveal_strlit("normal");
    reveal_strlit("600");
    reveal_strlit("900");
    reveal_strlit("1200");
    reveal_strlit("none");
    reveal_strlit("terminal");
    reveal_strlit("chat");
    let l = lower_seq(trim(a));
    lemma_lower_trim(a);
    lemma_lower_props(trim(a));
    let dflt = "#315bff"@;
    lemma_literal_trimmed(dflt);
    assert(lower_seq(dflt) =~= dflt);
    assert(hex_rgb(dflt)) by {
        assert(trim(dflt) == dflt);
        assert(crate::text::is_hex(dflt[1]));
        assert forall|i: int| 0 <= i < dflt.subrange(1, 7).len() implies crate::text::is_hex(
            #[trigger] dflt.subrange(1, 7)[i],
        ) by {
            assert(dflt.subrange(1, 7)[i] == dflt[i + 1]);
        }
    }
    lemma_trim_idempotent(m);
    lemma_literal_trimmed("system"@);
    lemma_literal_trimmed("dense"@);
    lemma_literal_trimmed("comfortable"@);
    lemma_literal_trimmed("normal"@);
    assert("normal"@ != "dense"@ && "normal"@ != "compact"@ && "normal"@ != "comfortable"@);
    assert("dense"@ != "comfortable"@);
    lemma_trim_idempotent(w);
    lemma_literal_trimmed("900"@);
    lemma_literal_trimmed("terminal"@);
    lemma_literal_trimmed("chat"@);
    assert("chat"@ != "terminal"@);
}

/// Sanitizing preferences that were already sanitized gives the same preferences: what
/// a second pass yields is what the first pass made of the original.
pub proof fn law_sanitize_appearance_idempotent(p: AppearancePrefs, q: AppearancePrefs, r: AppearancePrefs)
    requires
        sanitized(q, p),
        sanitized(r, q),
    ensures
        sanitized(r, p),
{
    lemma_fields_idempotent(p.accent_color@, p.mode@, p.chat_rail_density@, p.chat_max_width@, p.session_default_view@);
}

/// The known repositories of a sanitized config: the deduplicated list, with the
/// trimmed active repository appended when it is set and missing.
pub open spec fn known_after(active: Seq<char>, known: Seq<Seq<char>>) -> Seq<Seq<char>> {
    let d = dedupe(known);
    let a = trim(active);
    if a.len() > 0 && !d.contains(a) {
        d.push(a)
    } else {
        d
    }
}

/// `out` is `cfg` sanitized.
pub open spec fn config_sanitized(out: AppConfig, cfg: AppConfig) -> bool {
    &&& out.active_repo@ == trim(cfg.active_repo@)
    &&& views(out.known_repos@) == known_after(cfg.active_repo@, views(cfg.known_repos@))
    &&& out.mcp_enabled == cfg.mcp_enabled
    &&& sanitized(out.appearance, cfg.appearance)
    &&& out.settings_version == 1
}

/// Sanitizing a sanitized config changes nothing: the active repository stays listed
/// once and the list is already clean.
pub proof fn law_sanitize_app_config_idempotent(c: AppConfig, q: AppConfig, r: AppConfig)
    requires
        config_sanitized(q, c),
        config_sanitized(r, q),
    ensures
        config_sanitized(r, c),
{
    law_sanitize_appearance_idempotent(c.appearance, q.appearance, r.appearance);
    let a = c.active_repo@;
    let k = views(c.known_repos@);
    let d = dedupe(k);
    lemma_dedupe_clean(k);
    lemma_trim_idempotent(a);
    let ka = known_after(a, k);
    assert(clean_list(ka)) by {
        if trim(a).len() > 0 && !d.contains(trim(a)) {
            assert forall|i: int, j: int| 0 <= i < j < ka.len() implies #[trigger] ka[i] != #[trigger] ka[j] by {
                if j == d.len() {
                    assert(ka[i] == d[i]);
                    assert(d.contains(d[i]));
                } else {
                    assert(ka[i] == d[i] && ka[j] == d[j]);
                }
            }
            assert forall|i: int| 0 <= i < ka.len() implies (#[trigger] ka[i]).len() > 0 && trim(ka[i]) == ka[i] by {
                if i < d.len() {
                    assert(ka[i] == d[i]);
                }
            }
        }
    }
    lemma_dedupe_of_clean(ka);
    if trim(a).len() > 0 {
        assert(ka.contains(trim(a))) by {
            if d.contains(trim(a)) {
                let w = choose|w: int| 0 <= w < d.len() && d[w] == trim(a);
                assert(ka[w] == d[w]);
            } else {
                assert(ka[d.len() as int] == trim(a));
            }
        }
    }
    assert(known_after(trim(a), ka) == ka);
}

/// Bring a stored config into range.
pub fn sanitize_app_config(cfg: AppConfig) -> (r: AppConfig)
    ensures
        config_sanitized(r, cfg),
{
    let active_repo = trim_str(cfg.active_repo.as_str());
    let mut known_repos = dedupe_known_repos(cfg.known_repos);
    if active_repo.as_str().unicode_len() > 0 && !contains_string(&known_repos, &active_repo) {
        let copy = owned(active_repo.as_str());
        let ghost before = views(known_repos@);
        known_repos.push(copy);
        assert(views(known_repos@) =~= before.push(active_repo@));
    }
    AppConfig {
        active_repo,
        known_repos,
        mcp_enabled: cfg.mcp_enabled,
        appearance: sanitize_appearance(cfg.appearance),
        settings_version: 1,
    }
}

/// The list without the entries that trim to `target`.
pub open spec fn without(known: Seq<Seq<char>>, target: Seq<char>) -> Seq<Seq<char>>
    decreases known.len(),
{
    if known.len() == 0 {
        seq![]
    } else {
        let rest = without(known.drop_last(), target);
        if trim(known.last()) != target {
            rest.push(known.last())
        } else {
            rest
        }
    }
}

proof fn lemma_without_avoids(known: Seq<Seq<char>>, target: Seq<char>)
    ensures
        forall|k: int| 0 <= k < without(known, target).len() ==> trim(#[trigger] without(known, target)[k]) != target,
    decreases known.len(),
{
    if known.len() > 0 {
        let d = known.drop_last();
        lemma_without_avoids(d, target);
        let w = without(known, target);
        let wd = without(d, target);
        assert forall|k: int| 0 <= k < w.len() implies trim(#[trigger] w[k]) != target by {
            if k < wd.len() {
                assert(w[k] == wd[k]);
            } else {
                assert(w[k] == known.last());
            }
        }
    }
}

/// A delisted repository stays delisted: it is not among the known repositories of the
/// sanitized config that remains, though the active one is re-listed by sanitizing.
proof fn lemma_removed_stays_out(active: Seq<char>, known: Seq<Seq<char>>, target: Seq<char>)
    requires
        trim(active) != target,
    ensures
        !known_after(active, without(known, target)).contains(target),
{
    let w = without(known, target);
    lemma_without_avoids(known, target);
    lemma_dedupe_clean(w);
    let d = dedupe(w);
    if d.contains(target) {
        let k = choose|k: int| 0 <= k < d.len() && d[k] == target;
        let j = choose|j: int| 0 <= j < w.len() && d[k] == trim(w[j]);
        assert(trim(w[j]) != target);
    }
}

proof fn lemma_without_len(known: Seq<Seq<char>>, target: Seq<char>)
    ensures
        without(known, target).len() <= known.len(),
    decreases known.len(),
{
    if known.len() > 0 {
        lemma_without_len(known.drop_last(), target);
    }
}

/// Delist a repository. The error, when the target is blank or not listed; otherwise the
/// config that remains and whether the target was the active repository, which is then
/// cleared.
pub fn remove_repo_from_config(cfg: AppConfig, target: &str) -> (r: Result<(AppConfig, bool), String>)
    ensures
        trim(target@).len() == 0 ==> (r matches Err(e) && e@ == "no repo given"@),
        trim(target@).len() > 0 && without(views(cfg.known_repos@), trim(target@)).len() == cfg.known_repos@.len()
            ==> (r matches Err(e) && e@ == "repo not in list: "@ + trim(target@)),
        r matches Ok((out, was_active)) ==> {
            &&& trim(target@).len() > 0
            &&& without(views(cfg.known_repos@), trim(target@)).len() < cfg.known_repos@.len()
            &&& was_active == (trim(cfg.active_repo@) == trim(target@))
            &&& out.active_repo@ == (if was_active {
                Seq::<char>::empty()
            } else {
                trim(cfg.active_repo@)
            })
            &&& views(out.known_repos@) == known_after(
                if was_active {
                    Seq::<char>::empty()
                } else {
                    cfg.active_repo@
                },
                without(views(cfg.known_repos@), trim(target@)),
            )
            &&& out.mcp_enabled == cfg.mcp_enabled
            &&& sanitized(out.appearance, cfg.appearance)
            &&& out.settings_version == 1
            &&& !views(out.known_repos@).contains(trim(target@))
        },
{
    let t = trim_str(target);
    if t.as_str().unicode_len() == 0 {
        return Err(owned("no repo given"));
    }
    let ghost whole = views(cfg.known_repos@);
    let n = cfg.known_repos.len();
    let mut rest = cfg.known_repos;
    let mut kept: Vec<String> = Vec::new();
    let mut i: usize = 0;
    assert(whole.take(0) =~= Seq::<Seq<char>>::empty());
    assert(views(kept@) =~= Seq::<Seq<char>>::empty());
    while rest.len() > 0
        invariant
            n == whole.len(),
            i <= whole.len(),
            views(rest@) == whole.skip(i as int),
            views(kept@) == without(whole.take(i as int), t@),
        decreases rest@.len(),
    {
        assert(views(rest@).len() == rest@.len());
        let ghost before = rest@;
        let r = rest.remove(0);
        proof {
            assert(views(rest@) =~= views(before).drop_first());
            assert(whole.take(i + 1).drop_last() =~= whole.take(i as int));
            assert(whole.take(i + 1).last() == whole[i as int]);
            assert(whole.skip(i as int)[0] == whole[i as int]);
            assert(views(rest@) =~= whole.skip(i + 1));
        }
        let rt = trim_str(r.as_str());
        if !str_eq(rt.as_str(), t.as_str()) {
            kept.push(r);
            assert(views(kept@) =~= without(whole.take(i as int), t@).push(whole[i as int]));
        } else {
            assert(trim(whole.take(i + 1).last()) == t@);
        }
        i = i + 1;
    }
    assert(whole.take(i as int) =~= whole);
    proof {
        lemma_without_len(whole, t@);
        assert(views(kept@).len() == kept@.len());
    }
    if kept.len() == n {
        let mut msg = owned("repo not in list: ");
        crate::text::push_str(&mut msg, t.as_str());
        return Err(msg);
    }
    let at = trim_str(cfg.active_repo.as_str());
    let was_active = str_eq(at.as_str(), t.as_str());
    let active_repo = if was_active {
        String::new()
    } else {
        cfg.active_repo
    };
    let out = sanitize_app_config(
        AppConfig {
            active_repo,
            known_repos: kept,
            mcp_enabled: cfg.mcp_enabled,
            appearance: cfg.appearance,
            settings_version: cfg.settings_version,
        },
    );
    proof {
        if was_active {
            assert(trim(Seq::<char>::empty()) =~= Seq::<char>::empty());
        }
        lemma_removed_stays_out(if was_active {
            Seq::<char>::empty()
        } else {
            cfg.active_repo@
        }, whole, t@);
    }
    Ok((out, was_active))
}


/// Make `repo` the active repository: it becomes the selection and joins the list, and
/// the config is sanitized.
pub fn activate_repo_in_config(cfg: AppConfig, repo: &str) -> (r: AppConfig)
    ensures
        r.active_repo@ == trim(repo@),
        views(r.known_repos@) == known_after(repo@, views(cfg.known_repos@).push(repo@)),
        r.mcp_enabled == cfg.mcp_enabled,
        sanitized(r.appearance, cfg.appearance),
        r.settings_version == 1,
{
    let mut c = cfg;
    c.active_repo = owned(repo);
    let ghost before = views(c.known_repos@);
    c.known_repos.push(owned(repo));
    assert(views(c.known_repos@) =~= before.push(repo@));
    sanitize_app_config(c)
}

/// An activated repository is the selection and is listed exactly once, whatever the list
/// held before.
pub proof fn law_activated_repo_listed_once(known: Seq<Seq<char>>, repo: Seq<char>)
    requires
        trim(repo).len() > 0,
    ensures
        known_after(repo, known.push(repo)).contains(trim(repo)),
        clean_list(known_after(repo, known.push(repo))),
{
    let k = known.push(repo);
    lemma_dedupe_clean(k);
    assert(k[k.len() - 1] == repo);
    assert(dedupe(k).contains(trim(repo)));
}


/// Why a repository cannot be opened here: another window holds it. It is named by its
/// folder name, or by its path when that has none.
pub fn repo_busy_message(repo: &str) -> (r: String)
    ensures
        r@ == match crate::artifacts::file_name_of(repo@) {
            Some(n) => if n.len() > 0 {
                n
            } else {
                repo@
            },
            None => repo@,
        } + " is open in another Alinery window."@,
{
    let mut m = match crate::artifacts::path_file_name(repo) {
        Some(n) => if n.len() > 0 {
            crate::text::string_of(n.as_slice())
        } else {
            owned(repo)
        },
        None => owned(repo),
    };
    crate::text::push_str(&mut m, " is open in another Alinery window.");
    m
}

} // verus!
