//! Tailwind CSS generation through `encre-css`, and its injection.
//!
//! The classes of a document are turned into CSS by `encre-css`; the CSS
//! goes, in a `<style>` block, at the end of the first `<head>`; without a
//! `<head>`, before the first `</html>`, or in front of the document when it
//! has neither. The email configuration switches the
//! preflight off and gives every shade of the 22 Tailwind v3 colour scales
//! its hex value.
use vstd::prelude::*;
use crate::error::Error;
use crate::rewrite::{rewrite, rewrite_outcome, HtmlRule, RewriteLog, RuleView};
use crate::text::{chars_of, concat2, find, find_in, is_hex, lemma_find_from_facts, lit, push_all, push_range, push_str, string_of, trim, trimmed};

verus! {

broadcast use vstd::string::group_string_axioms;

// ───────────────────────────── configuration ─────────────────────────────

#[verifier::external_type_specification]
#[verifier::external_body]
pub struct ExConfig(encre_css::Config);

/// The custom colours of a configuration's theme, by name.
pub uninterp spec fn config_colors(c: encre_css::Config) -> Map<Seq<char>, Seq<char>>;

/// The custom screen breakpoints of a configuration's theme, by name.
pub uninterp spec fn config_screens(c: encre_css::Config) -> Map<Seq<char>, Seq<char>>;

/// Whether a configuration's preflight is `Preflight::None`.
pub uninterp spec fn config_preflight_none(c: encre_css::Config) -> bool;

/// A configuration's settings other than its custom colours, its custom
/// screens and its preflight, taken together as one value.
pub uninterp spec fn config_rest(c: encre_css::Config) -> int;

/// `encre_css::Config::default()`: the derived default, whose theme has no
/// custom colours and no custom screens, and whose preflight is the full one.
#[verifier::external_body]
fn default_config() -> (r: encre_css::Config)
    ensures
        config_colors(r).dom() == Set::<Seq<char>>::empty(),
        config_screens(r).dom() == Set::<Seq<char>>::empty(),
        !config_preflight_none(r),
{
    encre_css::Config::default()
}

/// Sets `preflight` to `Preflight::None`; the theme stays as it was.
#[verifier::external_body]
fn set_preflight_none(c: &mut encre_css::Config)
    ensures
        config_preflight_none(*final(c)),
        config_colors(*final(c)) == config_colors(*old(c)),
        config_screens(*final(c)) == config_screens(*old(c)),
        config_rest(*final(c)) == config_rest(*old(c)),
{
    c.preflight = encre_css::Preflight::None;
}

/// `theme.colors.add(key, value)`: the colour map gets `key` mapped to
/// `value` (replacing an earlier value); nothing else changes.
#[verifier::external_body]
fn add_color(c: &mut encre_css::Config, key: String, value: String)
    ensures
        config_colors(*final(c)) == config_colors(*old(c)).insert(key@, value@),
        config_screens(*final(c)) == config_screens(*old(c)),
        config_preflight_none(*final(c)) == config_preflight_none(*old(c)),
        config_rest(*final(c)) == config_rest(*old(c)),
{
    c.theme.colors.add(key, value);
}

/// `theme.screens.add(key, value)`: the screen map gets `key` mapped to
/// `value` (replacing an earlier value); nothing else changes.
#[verifier::external_body]
fn add_screen(c: &mut encre_css::Config, key: String, value: String)
    ensures
        config_screens(*final(c)) == config_screens(*old(c)).insert(key@, value@),
        config_colors(*final(c)) == config_colors(*old(c)),
        config_preflight_none(*final(c)) == config_preflight_none(*old(c)),
        config_rest(*final(c)) == config_rest(*old(c)),
{
    c.theme.screens.add(key, value);
}

/// The CSS that `encre_css::generate` produces for one source with a
/// configuration: a function of the two.
pub uninterp spec fn generated_css(html: Seq<char>, c: encre_css::Config) -> Seq<char>;

/// `encre_css::generate` on one source. The contract names the result
/// (`generated_css`); what the CSS holds is encre-css's and is not stated.
#[verifier::external_body]
fn generate(html: &str, config: &encre_css::Config) -> (r: String)
    ensures r@ == generated_css(html@, *config),
{
    encre_css::generate([html], config)
}

// ───────────────────────────── the email palette ─────────────────────────────

/// How many colour scales there are.
pub const SCALE_COUNT: usize = 22;

/// How many shades a scale has.
pub const SHADE_COUNT: usize = 11;

/// The name of shade `j` of a scale.
pub open spec fn shade_name(j: int) -> Seq<char> {
    if j == 0 { "50"@ }
    else if j == 1 { "100"@ }
    else if j == 2 { "200"@ }
    else if j == 3 { "300"@ }
    else if j == 4 { "400"@ }
    else if j == 5 { "500"@ }
    else if j == 6 { "600"@ }
    else if j == 7 { "700"@ }
    else if j == 8 { "800"@ }
    else if j == 9 { "900"@ }
    else { "950"@ }
}

fn shade_name_exec(j: usize) -> (r: &'static str)
    requires j < SHADE_COUNT,
    ensures r@ == shade_name(j as int),
{
    if j == 0 { "50" }
    else if j == 1 { "100" }
    else if j == 2 { "200" }
    else if j == 3 { "300" }
    else if j == 4 { "400" }
    else if j == 5 { "500" }
    else if j == 6 { "600" }
    else if j == 7 { "700" }
    else if j == 8 { "800" }
    else if j == 9 { "900" }
    else { "950" }
}

/// The name of colour scale `i` (of `SCALE_COUNT`).
pub open spec fn scale_name(i: int) -> Seq<char> {
    if i == 0 { "slate"@ }
    else if i == 1 { "gray"@ }
    else if i == 2 { "zinc"@ }
    else if i == 3 { "neutral"@ }
    else if i == 4 { "stone"@ }
    else if i == 5 { "red"@ }
    else if i == 6 { "orange"@ }
    else if i == 7 { "amber"@ }
    else if i == 8 { "yellow"@ }
    else if i == 9 { "lime"@ }
    else if i == 10 { "green"@ }
    else if i == 11 { "emerald"@ }
    else if i == 12 { "teal"@ }
    else if i == 13 { "cyan"@ }
    else if i == 14 { "sky"@ }
    else if i == 15 { "blue"@ }
    else if i == 16 { "indigo"@ }
    else if i == 17 { "violet"@ }
    else if i == 18 { "purple"@ }
    else if i == 19 { "fuchsia"@ }
    else if i == 20 { "pink"@ }
    else { "rose"@ }
}

/// The hex values of colour scale `i`, from the lightest shade to the darkest.
pub open spec fn scale_hexes(i: int) -> Seq<Seq<char>> {
    if i == 0 { seq!["#f8fafc"@, "#f1f5f9"@, "#e2e8f0"@, "#cbd5e1"@, "#94a3b8"@, "#64748b"@, "#475569"@, "#334155"@, "#1e293b"@, "#0f172a"@, "#020617"@] }
    else if i == 1 { seq!["#f9fafb"@, "#f3f4f6"@, "#e5e7eb"@, "#d1d5db"@, "#9ca3af"@, "#6b7280"@, "#4b5563"@, "#374151"@, "#1f2937"@, "#111827"@, "#030712"@] }
    else if i == 2 { seq!["#fafafa"@, "#f4f4f5"@, "#e4e4e7"@, "#d4d4d8"@, "#a1a1aa"@, "#71717a"@, "#52525b"@, "#3f3f46"@, "#27272a"@, "#18181b"@, "#09090b"@] }
    else if i == 3 { seq!["#fafafa"@, "#f5f5f5"@, "#e5e5e5"@, "#d4d4d4"@, "#a3a3a3"@, "#737373"@, "#525252"@, "#404040"@, "#262626"@, "#171717"@, "#0a0a0a"@] }
    else if i == 4 { seq!["#fafaf9"@, "#f5f5f4"@, "#e7e5e4"@, "#d6d3d1"@, "#a8a29e"@, "#78716c"@, "#57534e"@, "#44403c"@, "#292524"@, "#1c1917"@, "#0c0a09"@] }
    else if i == 5 { seq!["#fef2f2"@, "#fee2e2"@, "#fecaca"@, "#fca5a5"@, "#f87171"@, "#ef4444"@, "#dc2626"@, "#b91c1c"@, "#991b1b"@, "#7f1d1d"@, "#450a0a"@] }
    else if i == 6 { seq!["#fff7ed"@, "#ffedd5"@, "#fed7aa"@, "#fdba74"@, "#fb923c"@, "#f97316"@, "#ea580c"@, "#c2410c"@, "#9a3412"@, "#7c2d12"@, "#431407"@] }
    else if i == 7 { seq!["#fffbeb"@, "#fef3c7"@, "#fde68a"@, "#fcd34d"@, "#fbbf24"@, "#f59e0b"@, "#d97706"@, "#b45309"@, "#92400e"@, "#78350f"@, "#451a03"@] }
    else if i == 8 { seq!["#fefce8"@, "#fef9c3"@, "#fef08a"@, "#fde047"@, "#facc15"@, "#eab308"@, "#ca8a04"@, "#a16207"@, "#854d0e"@, "#713f12"@, "#422006"@] }
    else if i == 9 { seq!["#f7fee7"@, "#ecfccb"@, "#d9f99d"@, "#bef264"@, "#a3e635"@, "#84cc16"@, "#65a30d"@, "#4d7c0f"@, "#3f6212"@, "#365314"@, "#1a2e05"@] }
    else if i == 10 { seq!["#f0fdf4"@, "#dcfce7"@, "#bbf7d0"@, "#86efac"@, "#4ade80"@, "#22c55e"@, "#16a34a"@, "#15803d"@, "#166534"@, "#14532d"@, "#052e16"@] }
    else if i == 11 { seq!["#ecfdf5"@, "#d1fae5"@, "#a7f3d0"@, "#6ee7b7"@, "#34d399"@, "#10b981"@, "#059669"@, "#047857"@, "#065f46"@, "#064e3b"@, "#022c22"@] }
    else if i == 12 { seq!["#f0fdfa"@, "#ccfbf1"@, "#99f6e4"@, "#5eead4"@, "#2dd4bf"@, "#14b8a6"@, "#0d9488"@, "#0f766e"@, "#115e59"@, "#134e4a"@, "#042f2e"@] }
    else if i == 13 { seq!["#ecfeff"@, "#cffafe"@, "#a5f3fc"@, "#67e8f9"@, "#22d3ee"@, "#06b6d4"@, "#0891b2"@, "#0e7490"@, "#155e75"@, "#164e63"@, "#083344"@] }
    else if i == 14 { seq!["#f0f9ff"@, "#e0f2fe"@, "#bae6fd"@, "#7dd3fc"@, "#38bdf8"@, "#0ea5e9"@, "#0284c7"@, "#0369a1"@, "#075985"@, "#0c4a6e"@, "#082f49"@] }
    else if i == 15 { seq!["#eff6ff"@, "#dbeafe"@, "#bfdbfe"@, "#93c5fd"@, "#60a5fa"@, "#3b82f6"@, "#2563eb"@, "#1d4ed8"@, "#1e40af"@, "#1e3a8a"@, "#172554"@] }
    else if i == 16 { seq!["#eef2ff"@, "#e0e7ff"@, "#c7d2fe"@, "#a5b4fc"@, "#818cf8"@, "#6366f1"@, "#4f46e5"@, "#4338ca"@, "#3730a3"@, "#312e81"@, "#1e1b4b"@] }
    else if i == 17 { seq!["#f5f3ff"@, "#ede9fe"@, "#ddd6fe"@, "#c4b5fd"@, "#a78bfa"@, "#8b5cf6"@, "#7c3aed"@, "#6d28d9"@, "#5b21b6"@, "#4c1d95"@, "#2e1065"@] }
    else if i == 18 { seq!["#faf5ff"@, "#f3e8ff"@, "#e9d5ff"@, "#d8b4fe"@, "#c084fc"@, "#a855f7"@, "#9333ea"@, "#7e22ce"@, "#6b21a8"@, "#581c87"@, "#3b0764"@] }
    else if i == 19 { seq!["#fdf4ff"@, "#fae8ff"@, "#f5d0fe"@, "#f0abfc"@, "#e879f9"@, "#d946ef"@, "#c026d3"@, "#a21caf"@, "#86198f"@, "#701a75"@, "#4a044e"@] }
    else if i == 20 { seq!["#fdf2f8"@, "#fce7f3"@, "#fbcfe8"@, "#f9a8d4"@, "#f472b6"@, "#ec4899"@, "#db2777"@, "#be185d"@, "#9d174d"@, "#831843"@, "#500724"@] }
    else { seq!["#fff1f2"@, "#ffe4e6"@, "#fecdd3"@, "#fda4af"@, "#fb7185"@, "#f43f5e"@, "#e11d48"@, "#be123c"@, "#9f1239"@, "#881337"@, "#4c0519"@] }
}

fn scale_name_exec(i: usize) -> (r: &'static str)
    requires i < SCALE_COUNT,
    ensures r@ == scale_name(i as int),
{
    if i == 0 { "slate" }
    else if i == 1 { "gray" }
    else if i == 2 { "zinc" }
    else if i == 3 { "neutral" }
    else if i == 4 { "stone" }
    else if i == 5 { "red" }
    else if i == 6 { "orange" }
    else if i == 7 { "amber" }
    else if i == 8 { "yellow" }
    else if i == 9 { "lime" }
    else if i == 10 { "green" }
    else if i == 11 { "emerald" }
    else if i == 12 { "teal" }
    else if i == 13 { "cyan" }
    else if i == 14 { "sky" }
    else if i == 15 { "blue" }
    else if i == 16 { "indigo" }
    else if i == 17 { "violet" }
    else if i == 18 { "purple" }
    else if i == 19 { "fuchsia" }
    else if i == 20 { "pink" }
    else { "rose" }
}

fn scale_hexes_exec(i: usize) -> (r: Vec<&'static str>)
    requires i < SCALE_COUNT,
    ensures
        r@.map_values(|s: &str| s@) == scale_hexes(i as int),
        r@.len() == SHADE_COUNT,
{
    let r = if i == 0 {
        vec!["#f8fafc", "#f1f5f9", "#e2e8f0", "#cbd5e1", "#94a3b8", "#64748b", "#475569", "#334155", "#1e293b", "#0f172a", "#020617"]
    } else if i == 1 {
        vec!["#f9fafb", "#f3f4f6", "#e5e7eb", "#d1d5db", "#9ca3af", "#6b7280", "#4b5563", "#374151", "#1f2937", "#111827", "#030712"]
    } else if i == 2 {
        vec!["#fafafa", "#f4f4f5", "#e4e4e7", "#d4d4d8", "#a1a1aa", "#71717a", "#52525b", "#3f3f46", "#27272a", "#18181b", "#09090b"]
    } else if i == 3 {
        vec!["#fafafa", "#f5f5f5", "#e5e5e5", "#d4d4d4", "#a3a3a3", "#737373", "#525252", "#404040", "#262626", "#171717", "#0a0a0a"]
    } else if i == 4 {
        vec!["#fafaf9", "#f5f5f4", "#e7e5e4", "#d6d3d1", "#a8a29e", "#78716c", "#57534e", "#44403c", "#292524", "#1c1917", "#0c0a09"]
    } else if i == 5 {
        vec!["#fef2f2", "#fee2e2", "#fecaca", "#fca5a5", "#f87171", "#ef4444", "#dc2626", "#b91c1c", "#991b1b", "#7f1d1d", "#450a0a"]
    } else if i == 6 {
        vec!["#fff7ed", "#ffedd5", "#fed7aa", "#fdba74", "#fb923c", "#f97316", "#ea580c", "#c2410c", "#9a3412", "#7c2d12", "#431407"]
    } else if i == 7 {
        vec!["#fffbeb", "#fef3c7", "#fde68a", "#fcd34d", "#fbbf24", "#f59e0b", "#d97706", "#b45309", "#92400e", "#78350f", "#451a03"]
    } else if i == 8 {
        vec!["#fefce8", "#fef9c3", "#fef08a", "#fde047", "#facc15", "#eab308", "#ca8a04", "#a16207", "#854d0e", "#713f12", "#422006"]
    } else if i == 9 {
        vec!["#f7fee7", "#ecfccb", "#d9f99d", "#bef264", "#a3e635", "#84cc16", "#65a30d", "#4d7c0f", "#3f6212", "#365314", "#1a2e05"]
    } else if i == 10 {
        vec!["#f0fdf4", "#dcfce7", "#bbf7d0", "#86efac", "#4ade80", "#22c55e", "#16a34a", "#15803d", "#166534", "#14532d", "#052e16"]
    } else if i == 11 {
        vec!["#ecfdf5", "#d1fae5", "#a7f3d0", "#6ee7b7", "#34d399", "#10b981", "#059669", "#047857", "#065f46", "#064e3b", "#022c22"]
    } else if i == 12 {
        vec!["#f0fdfa", "#ccfbf1", "#99f6e4", "#5eead4", "#2dd4bf", "#14b8a6", "#0d9488", "#0f766e", "#115e59", "#134e4a", "#042f2e"]
    } else if i == 13 {
        vec!["#ecfeff", "#cffafe", "#a5f3fc", "#67e8f9", "#22d3ee", "#06b6d4", "#0891b2", "#0e7490", "#155e75", "#164e63", "#083344"]
    } else if i == 14 {
        vec!["#f0f9ff", "#e0f2fe", "#bae6fd", "#7dd3fc", "#38bdf8", "#0ea5e9", "#0284c7", "#0369a1", "#075985", "#0c4a6e", "#082f49"]
    } else if i == 15 {
        vec!["#eff6ff", "#dbeafe", "#bfdbfe", "#93c5fd", "#60a5fa", "#3b82f6", "#2563eb", "#1d4ed8", "#1e40af", "#1e3a8a", "#172554"]
    } else if i == 16 {
        vec!["#eef2ff", "#e0e7ff", "#c7d2fe", "#a5b4fc", "#818cf8", "#6366f1", "#4f46e5", "#4338ca", "#3730a3", "#312e81", "#1e1b4b"]
    } else if i == 17 {
        vec!["#f5f3ff", "#ede9fe", "#ddd6fe", "#c4b5fd", "#a78bfa", "#8b5cf6", "#7c3aed", "#6d28d9", "#5b21b6", "#4c1d95", "#2e1065"]
    } else if i == 18 {
        vec!["#faf5ff", "#f3e8ff", "#e9d5ff", "#d8b4fe", "#c084fc", "#a855f7", "#9333ea", "#7e22ce", "#6b21a8", "#581c87", "#3b0764"]
    } else if i == 19 {
        vec!["#fdf4ff", "#fae8ff", "#f5d0fe", "#f0abfc", "#e879f9", "#d946ef", "#c026d3", "#a21caf", "#86198f", "#701a75", "#4a044e"]
    } else if i == 20 {
        vec!["#fdf2f8", "#fce7f3", "#fbcfe8", "#f9a8d4", "#f472b6", "#ec4899", "#db2777", "#be185d", "#9d174d", "#831843", "#500724"]
    } else {
        vec!["#fff1f2", "#ffe4e6", "#fecdd3", "#fda4af", "#fb7185", "#f43f5e", "#e11d48", "#be123c", "#9f1239", "#881337", "#4c0519"]
    };
    assert(r@.map_values(|s: &str| s@) =~= scale_hexes(i as int));
    r
}

/// Palette entry `k`: the `k % 11`-th shade of scale `k / 11`, named
/// `scale-shade`, with its hex value.
pub open spec fn palette_entry(k: int) -> (Seq<char>, Seq<char>) {
    (scale_name(k / 11) + "-"@ + shade_name(k % 11), scale_hexes(k / 11)[k % 11])
}

/// The email palette, scale by scale, shade by shade.
pub open spec fn email_palette() -> Seq<(Seq<char>, Seq<char>)> {
    Seq::new((SCALE_COUNT * SHADE_COUNT) as nat, |k: int| palette_entry(k))
}

/// A map with the entries inserted in order (a later entry for a name wins).
pub open spec fn insert_all(m: Map<Seq<char>, Seq<char>>, entries: Seq<(Seq<char>, Seq<char>)>) -> Map<Seq<char>, Seq<char>>
    decreases entries.len(),
{
    if entries.len() == 0 {
        m
    } else {
        insert_all(m, entries.drop_last()).insert(entries.last().0, entries.last().1)
    }
}

/// After the entries are inserted, a name maps to the value of its last
/// entry, whatever the map held before.
pub proof fn lemma_insert_all_last_wins(m: Map<Seq<char>, Seq<char>>, entries: Seq<(Seq<char>, Seq<char>)>, k: int)
    requires
        0 <= k < entries.len(),
        forall|j: int| k < j < entries.len() ==> entries[j].0 != entries[k].0,
    ensures
        insert_all(m, entries).dom().contains(entries[k].0),
        insert_all(m, entries)[entries[k].0] == entries[k].1,
    decreases entries.len(),
{
    if k < entries.len() - 1 {
        let d = entries.drop_last();
        assert forall|j: int| k < j < d.len() implies d[j].0 != d[k].0 by {
            assert(d[j] == entries[j]);
        }
        lemma_insert_all_last_wins(m, d, k);
    }
}

/// A colour written `#rrggbb` in hex digits.
pub open spec fn is_hex_color(v: Seq<char>) -> bool {
    &&& v.len() == 7
    &&& v[0] == '#'
    &&& is_hex(v[1]) && is_hex(v[2]) && is_hex(v[3]) && is_hex(v[4]) && is_hex(v[5]) && is_hex(v[6])
}

/// Every colour of the email palette is written `#rrggbb`.
pub proof fn lemma_palette_is_hex(i: int, j: int)
    requires
        0 <= i < SCALE_COUNT,
        0 <= j < SHADE_COUNT,
    ensures
        is_hex_color(scale_hexes(i)[j]),
{
    if i == 0 {
        reveal_strlit("#f8fafc");
        reveal_strlit("#f1f5f9");
        reveal_strlit("#e2e8f0");
        reveal_strlit("#cbd5e1");
        reveal_strlit("#94a3b8");
        reveal_strlit("#64748b");
        reveal_strlit("#475569");
        reveal_strlit("#334155");
        reveal_strlit("#1e293b");
        reveal_strlit("#0f172a");
        reveal_strlit("#020617");
    } else if i == 1 {
        reveal_strlit("#f9fafb");
        reveal_strlit("#f3f4f6");
        reveal_strlit("#e5e7eb");
        reveal_strlit("#d1d5db");
        reveal_strlit("#9ca3af");
        reveal_strlit("#6b7280");
        reveal_strlit("#4b5563");
        reveal_strlit("#374151");
        reveal_strlit("#1f2937");
        reveal_strlit("#111827");
        reveal_strlit("#030712");
    } else if i == 2 {
        reveal_strlit("#fafafa");
        reveal_strlit("#f4f4f5");
        reveal_strlit("#e4e4e7");
        reveal_strlit("#d4d4d8");
        reveal_strlit("#a1a1aa");
        reveal_strlit("#71717a");
        reveal_strlit("#52525b");
        reveal_strlit("#3f3f46");
        reveal_strlit("#27272a");
        reveal_strlit("#18181b");
        reveal_strlit("#09090b");
    } else if i == 3 {
        reveal_strlit("#fafafa");
        reveal_strlit("#f5f5f5");
        reveal_strlit("#e5e5e5");
        reveal_strlit("#d4d4d4");
        reveal_strlit("#a3a3a3");
        reveal_strlit("#737373");
        reveal_strlit("#525252");
        reveal_strlit("#404040");
        reveal_strlit("#262626");
        reveal_strlit("#171717");
        reveal_strlit("#0a0a0a");
    } else if i == 4 {
        reveal_strlit("#fafaf9");
        reveal_strlit("#f5f5f4");
        reveal_strlit("#e7e5e4");
        reveal_strlit("#d6d3d1");
        reveal_strlit("#a8a29e");
        reveal_strlit("#78716c");
        reveal_strlit("#57534e");
        reveal_strlit("#44403c");
        reveal_strlit("#292524");
        reveal_strlit("#1c1917");
        reveal_strlit("#0c0a09");
    } else if i == 5 {
        reveal_strlit("#fef2f2");
        reveal_strlit("#fee2e2");
        reveal_strlit("#fecaca");
        reveal_strlit("#fca5a5");
        reveal_strlit("#f87171");
        reveal_strlit("#ef4444");
        reveal_strlit("#dc2626");
        reveal_strlit("#b91c1c");
        reveal_strlit("#991b1b");
        reveal_strlit("#7f1d1d");
        reveal_strlit("#450a0a");
    } else if i == 6 {
        reveal_strlit("#fff7ed");
        reveal_strlit("#ffedd5");
        reveal_strlit("#fed7aa");
        reveal_strlit("#fdba74");
        reveal_strlit("#fb923c");
        reveal_strlit("#f97316");
        reveal_strlit("#ea580c");
        reveal_strlit("#c2410c");
        reveal_strlit("#9a3412");
        reveal_strlit("#7c2d12");
        reveal_strlit("#431407");
    } else if i == 7 {
        reveal_strlit("#fffbeb");
        reveal_strlit("#fef3c7");
        reveal_strlit("#fde68a");
        reveal_strlit("#fcd34d");
        reveal_strlit("#fbbf24");
        reveal_strlit("#f59e0b");
        reveal_strlit("#d97706");
        reveal_strlit("#b45309");
        reveal_strlit("#92400e");
        reveal_strlit("#78350f");
        reveal_strlit("#451a03");
    } else if i == 8 {
        reveal_strlit("#fefce8");
        reveal_strlit("#fef9c3");
        reveal_strlit("#fef08a");
        reveal_strlit("#fde047");
        reveal_strlit("#facc15");
        reveal_strlit("#eab308");
        reveal_strlit("#ca8a04");
        reveal_strlit("#a16207");
        reveal_strlit("#854d0e");
        reveal_strlit("#713f12");
        reveal_strlit("#422006");
    } else if i == 9 {
        reveal_strlit("#f7fee7");
        reveal_strlit("#ecfccb");
        reveal_strlit("#d9f99d");
        reveal_strlit("#bef264");
        reveal_strlit("#a3e635");
        reveal_strlit("#84cc16");
        reveal_strlit("#65a30d");
        reveal_strlit("#4d7c0f");
        reveal_strlit("#3f6212");
        reveal_strlit("#365314");
        reveal_strlit("#1a2e05");
    } else if i == 10 {
        reveal_strlit("#f0fdf4");
        reveal_strlit("#dcfce7");
        reveal_strlit("#bbf7d0");
        reveal_strlit("#86efac");
        reveal_strlit("#4ade80");
        reveal_strlit("#22c55e");
        reveal_strlit("#16a34a");
        reveal_strlit("#15803d");
        reveal_strlit("#166534");
        reveal_strlit("#14532d");
        reveal_strlit("#052e16");
    } else if i == 11 {
        reveal_strlit("#ecfdf5");
        reveal_strlit("#d1fae5");
        reveal_strlit("#a7f3d0");
        reveal_strlit("#6ee7b7");
        reveal_strlit("#34d399");
        reveal_strlit("#10b981");
        reveal_strlit("#059669");
        reveal_strlit("#047857");
        reveal_strlit("#065f46");
        reveal_strlit("#064e3b");
        reveal_strlit("#022c22");
    } else if i == 12 {
        reveal_strlit("#f0fdfa");
        reveal_strlit("#ccfbf1");
        reveal_strlit("#99f6e4");
        reveal_strlit("#5eead4");
        reveal_strlit("#2dd4bf");
        reveal_strlit("#14b8a6");
        reveal_strlit("#0d9488");
        reveal_strlit("#0f766e");
        reveal_strlit("#115e59");
        reveal_strlit("#134e4a");
        reveal_strlit("#042f2e");
    } else if i == 13 {
        reveal_strlit("#ecfeff");
        reveal_strlit("#cffafe");
        reveal_strlit("#a5f3fc");
        reveal_strlit("#67e8f9");
        reveal_strlit("#22d3ee");
        reveal_strlit("#06b6d4");
        reveal_strlit("#0891b2");
        reveal_strlit("#0e7490");
        reveal_strlit("#155e75");
        reveal_strlit("#164e63");
        reveal_strlit("#083344");
    } else if i == 14 {
        reveal_strlit("#f0f9ff");
        reveal_strlit("#e0f2fe");
        reveal_strlit("#bae6fd");
        reveal_strlit("#7dd3fc");
        reveal_strlit("#38bdf8");
        reveal_strlit("#0ea5e9");
        reveal_strlit("#0284c7");
        reveal_strlit("#0369a1");
        reveal_strlit("#075985");
        reveal_strlit("#0c4a6e");
        reveal_strlit("#082f49");
    } else if i == 15 {
        reveal_strlit("#eff6ff");
        reveal_strlit("#dbeafe");
        reveal_strlit("#bfdbfe");
        reveal_strlit("#93c5fd");
        reveal_strlit("#60a5fa");
        reveal_strlit("#3b82f6");
        reveal_strlit("#2563eb");
        reveal_strlit("#1d4ed8");
        reveal_strlit("#1e40af");
        reveal_strlit("#1e3a8a");
        reveal_strlit("#172554");
    } else if i == 16 {
        reveal_strlit("#eef2ff");
        reveal_strlit("#e0e7ff");
        reveal_strlit("#c7d2fe");
        reveal_strlit("#a5b4fc");
        reveal_strlit("#818cf8");
        reveal_strlit("#6366f1");
        reveal_strlit("#4f46e5");
        reveal_strlit("#4338ca");
        reveal_strlit("#3730a3");
        reveal_strlit("#312e81");
        reveal_strlit("#1e1b4b");
    } else if i == 17 {
        reveal_strlit("#f5f3ff");
        reveal_strlit("#ede9fe");
        reveal_strlit("#ddd6fe");
        reveal_strlit("#c4b5fd");
        reveal_strlit("#a78bfa");
        reveal_strlit("#8b5cf6");
        reveal_strlit("#7c3aed");
        reveal_strlit("#6d28d9");
        reveal_strlit("#5b21b6");
        reveal_strlit("#4c1d95");
        reveal_strlit("#2e1065");
    } else if i == 18 {
        reveal_strlit("#faf5ff");
        reveal_strlit("#f3e8ff");
        reveal_strlit("#e9d5ff");
        reveal_strlit("#d8b4fe");
        reveal_strlit("#c084fc");
        reveal_strlit("#a855f7");
        reveal_strlit("#9333ea");
        reveal_strlit("#7e22ce");
        reveal_strlit("#6b21a8");
        reveal_strlit("#581c87");
        reveal_strlit("#3b0764");
    } else if i == 19 {
        reveal_strlit("#fdf4ff");
        reveal_strlit("#fae8ff");
        reveal_strlit("#f5d0fe");
        reveal_strlit("#f0abfc");
        reveal_strlit("#e879f9");
        reveal_strlit("#d946ef");
        reveal_strlit("#c026d3");
        reveal_strlit("#a21caf");
        reveal_strlit("#86198f");
        reveal_strlit("#701a75");
        reveal_strlit("#4a044e");
    } else if i == 20 {
        reveal_strlit("#fdf2f8");
        reveal_strlit("#fce7f3");
        reveal_strlit("#fbcfe8");
        reveal_strlit("#f9a8d4");
        reveal_strlit("#f472b6");
        reveal_strlit("#ec4899");
        reveal_strlit("#db2777");
        reveal_strlit("#be185d");
        reveal_strlit("#9d174d");
        reveal_strlit("#831843");
        reveal_strlit("#500724");
    } else {
        reveal_strlit("#fff1f2");
        reveal_strlit("#ffe4e6");
        reveal_strlit("#fecdd3");
        reveal_strlit("#fda4af");
        reveal_strlit("#fb7185");
        reveal_strlit("#f43f5e");
        reveal_strlit("#e11d48");
        reveal_strlit("#be123c");
        reveal_strlit("#9f1239");
        reveal_strlit("#881337");
        reveal_strlit("#4c0519");
    }
}

// ───────────────────────────── the palette's names ─────────────────────────────

/// A number that tells the palette's scale and shade names apart: their
/// first two characters and their length.
spec fn name_code(s: Seq<char>) -> int {
    (s[0] as int) * 1000000 + (s[1] as int) * 1000 + s.len()
}

spec fn scale_code(i: int) -> int {
    if i == 0 { 115108005 }
    else if i == 1 { 103114004 }
    else if i == 2 { 122105004 }
    else if i == 3 { 110101007 }
    else if i == 4 { 115116005 }
    else if i == 5 { 114101003 }
    else if i == 6 { 111114006 }
    else if i == 7 { 97109005 }
    else if i == 8 { 121101006 }
    else if i == 9 { 108105004 }
    else if i == 10 { 103114005 }
    else if i == 11 { 101109007 }
    else if i == 12 { 116101004 }
    else if i == 13 { 99121004 }
    else if i == 14 { 115107003 }
    else if i == 15 { 98108004 }
    else if i == 16 { 105110006 }
    else if i == 17 { 118105006 }
    else if i == 18 { 112117006 }
    else if i == 19 { 102117007 }
    else if i == 20 { 112105004 }
    else { 114111004 }
}

spec fn shade_code(j: int) -> int {
    if j == 0 { 53048002 }
    else if j == 1 { 49048003 }
    else if j == 2 { 50048003 }
    else if j == 3 { 51048003 }
    else if j == 4 { 52048003 }
    else if j == 5 { 53048003 }
    else if j == 6 { 54048003 }
    else if j == 7 { 55048003 }
    else if j == 8 { 56048003 }
    else if j == 9 { 57048003 }
    else { 57053003 }
}

proof fn lemma_scale_name_facts(i: int)
    requires
        0 <= i < SCALE_COUNT,
    ensures
        scale_name(i).len() >= 2,
        name_code(scale_name(i)) == scale_code(i),
        forall|t: int| 0 <= t < scale_name(i).len() ==> scale_name(i)[t] != '-',
{
    if i == 0 {
        reveal_strlit("slate");
        assert(scale_name(i) =~= seq!['s', 'l', 'a', 't', 'e']);
    } else if i == 1 {
        reveal_strlit("gray");
        assert(scale_name(i) =~= seq!['g', 'r', 'a', 'y']);
    } else if i == 2 {
        reveal_strlit("zinc");
        assert(scale_name(i) =~= seq!['z', 'i', 'n', 'c']);
    } else if i == 3 {
        reveal_strlit("neutral");
        assert(scale_name(i) =~= seq!['n', 'e', 'u', 't', 'r', 'a', 'l']);
    } else if i == 4 {
        reveal_strlit("stone");
        assert(scale_name(i) =~= seq!['s', 't', 'o', 'n', 'e']);
    } else if i == 5 {
        reveal_strlit("red");
        assert(scale_name(i) =~= seq!['r', 'e', 'd']);
    } else if i == 6 {
        reveal_strlit("orange");
        assert(scale_name(i) =~= seq!['o', 'r', 'a', 'n', 'g', 'e']);
    } else if i == 7 {
        reveal_strlit("amber");
        assert(scale_name(i) =~= seq!['a', 'm', 'b', 'e', 'r']);
    } else if i == 8 {
        reveal_strlit("yellow");
        assert(scale_name(i) =~= seq!['y', 'e', 'l', 'l', 'o', 'w']);
    } else if i == 9 {
        reveal_strlit("lime");
        assert(scale_name(i) =~= seq!['l', 'i', 'm', 'e']);
    } else if i == 10 {
        reveal_strlit("green");
        assert(scale_name(i) =~= seq!['g', 'r', 'e', 'e', 'n']);
    } else if i == 11 {
        reveal_strlit("emerald");
        assert(scale_name(i) =~= seq!['e', 'm', 'e', 'r', 'a', 'l', 'd']);
    } else if i == 12 {
        reveal_strlit("teal");
        assert(scale_name(i) =~= seq!['t', 'e', 'a', 'l']);
    } else if i == 13 {
        reveal_strlit("cyan");
        assert(scale_name(i) =~= seq!['c', 'y', 'a', 'n']);
    } else if i == 14 {
        reveal_strlit("sky");
        assert(scale_name(i) =~= seq!['s', 'k', 'y']);
    } else if i == 15 {
        reveal_strlit("blue");
        assert(scale_name(i) =~= seq!['b', 'l', 'u', 'e']);
    } else if i == 16 {
        reveal_strlit("indigo");
        assert(scale_name(i) =~= seq!['i', 'n', 'd', 'i', 'g', 'o']);
    } else if i == 17 {
        reveal_strlit("violet");
        assert(scale_name(i) =~= seq!['v', 'i', 'o', 'l', 'e', 't']);
    } else if i == 18 {
        reveal_strlit("purple");
        assert(scale_name(i) =~= seq!['p', 'u', 'r', 'p', 'l', 'e']);
    } else if i == 19 {
        reveal_strlit("fuchsia");
        assert(scale_name(i) =~= seq!['f', 'u', 'c', 'h', 's', 'i', 'a']);
    } else if i == 20 {
        reveal_strlit("pink");
        assert(scale_name(i) =~= seq!['p', 'i', 'n', 'k']);
    } else if i == 21 {
        reveal_strlit("rose");
        assert(scale_name(i) =~= seq!['r', 'o', 's', 'e']);
    }
}

proof fn lemma_shade_name_facts(j: int)
    requires
        0 <= j < SHADE_COUNT,
    ensures
        shade_name(j).len() >= 2,
        name_code(shade_name(j)) == shade_code(j),
{
    if j == 0 {
        reveal_strlit("50");
        assert(shade_name(j) =~= seq!['5', '0']);
    } else if j == 1 {
        reveal_strlit("100");
        assert(shade_name(j) =~= seq!['1', '0', '0']);
    } else if j == 2 {
        reveal_strlit("200");
        assert(shade_name(j) =~= seq!['2', '0', '0']);
    } else if j == 3 {
        reveal_strlit("300");
        assert(shade_name(j) =~= seq!['3', '0', '0']);
    } else if j == 4 {
        reveal_strlit("400");
        assert(shade_name(j) =~= seq!['4', '0', '0']);
    } else if j == 5 {
        reveal_strlit("500");
        assert(shade_name(j) =~= seq!['5', '0', '0']);
    } else if j == 6 {
        reveal_strlit("600");
        assert(shade_name(j) =~= seq!['6', '0', '0']);
    } else if j == 7 {
        reveal_strlit("700");
        assert(shade_name(j) =~= seq!['7', '0', '0']);
    } else if j == 8 {
        reveal_strlit("800");
        assert(shade_name(j) =~= seq!['8', '0', '0']);
    } else if j == 9 {
        reveal_strlit("900");
        assert(shade_name(j) =~= seq!['9', '0', '0']);
    } else if j == 10 {
        reveal_strlit("950");
        assert(shade_name(j) =~= seq!['9', '5', '0']);
    }
}

/// Two palette names are the same only for the same scale and shade.
proof fn lemma_palette_names_distinct(i: int, j: int, i2: int, j2: int)
    requires
        0 <= i < SCALE_COUNT,
        0 <= j < SHADE_COUNT,
        0 <= i2 < SCALE_COUNT,
        0 <= j2 < SHADE_COUNT,
        scale_name(i) + "-"@ + shade_name(j) == scale_name(i2) + "-"@ + shade_name(j2),
    ensures
        i == i2 && j == j2,
{
    reveal_strlit("-");
    lemma_scale_name_facts(i);
    lemma_scale_name_facts(i2);
    lemma_shade_name_facts(j);
    lemma_shade_name_facts(j2);
    let (s, s2, d, d2) = (scale_name(i), scale_name(i2), shade_name(j), shade_name(j2));
    let key = s + "-"@ + d;
    let key2 = s2 + "-"@ + d2;
    if s.len() < s2.len() {
        assert(key[s.len() as int] == '-');
        assert(key2[s.len() as int] == s2[s.len() as int]);
    } else if s2.len() < s.len() {
        assert(key2[s2.len() as int] == '-');
        assert(key[s2.len() as int] == s[s2.len() as int]);
    } else {
        assert(s =~= key.subrange(0, s.len() as int));
        assert(s2 =~= key2.subrange(0, s.len() as int));
        assert(d =~= key.subrange(s.len() as int + 1, key.len() as int));
        assert(d2 =~= key2.subrange(s.len() as int + 1, key2.len() as int));
    }
}

/// The email palette gives every `scale-shade` name the hex value of that
/// shade of that scale: a later entry never overrides it.
pub proof fn lemma_email_palette_colors(i: int, j: int)
    requires
        0 <= i < SCALE_COUNT,
        0 <= j < SHADE_COUNT,
    ensures
        insert_all(Map::empty(), email_palette()).dom().contains(scale_name(i) + "-"@ + shade_name(j)),
        insert_all(Map::empty(), email_palette())[scale_name(i) + "-"@ + shade_name(j)] == scale_hexes(i)[j],
{
    let k = i * 11 + j;
    assert(k / 11 == i && k % 11 == j && 0 <= k < 242) by (nonlinear_arith)
        requires k == i * 11 + j, 0 <= j < 11, 0 <= i < 22;
    let pal = email_palette();
    assert forall|m: int| k < m < pal.len() implies pal[m].0 != pal[k].0 by {
        let (i2, j2) = (m / 11, m % 11);
        assert(0 <= i2 < 22 && 0 <= j2 < 11 && m == i2 * 11 + j2) by (nonlinear_arith)
            requires i2 == m / 11, j2 == m % 11, 0 <= m < 242;
        if pal[m].0 == pal[k].0 {
            lemma_palette_names_distinct(i, j, i2, j2);
        }
    }
    lemma_insert_all_last_wins(Map::empty(), pal, k);
}

/// An encre-css configuration for email: preflight off, and the email
/// palette added over the default theme's colours.
pub fn email_config() -> (r: encre_css::Config)
    ensures
        config_preflight_none(r),
        config_colors(r) == insert_all(Map::empty(), email_palette()),
        config_screens(r).dom() == Set::<Seq<char>>::empty(),
{
    proof { reveal_strlit("-"); }
    let mut config = default_config();
    set_preflight_none(&mut config);
    let ghost base = config_colors(config);
    let ghost screens = config_screens(config);
    assert(base =~= Map::empty());
    let ghost pal = email_palette();
    let mut i: usize = 0;
    assert(pal.take(0) =~= Seq::<(Seq<char>, Seq<char>)>::empty());
    while i < SCALE_COUNT
        invariant
            i <= SCALE_COUNT,
            pal == email_palette(),
            config_preflight_none(config),
            config_colors(config) == insert_all(base, pal.take(i * SHADE_COUNT)),
            config_screens(config) == screens,
        decreases SCALE_COUNT - i,
    {
        let name = scale_name_exec(i);
        let hexes = scale_hexes_exec(i);
        let mut j: usize = 0;
        while j < SHADE_COUNT
            invariant
                i < SCALE_COUNT,
                j <= SHADE_COUNT,
                pal == email_palette(),
                name@ == scale_name(i as int),
                hexes@.map_values(|s: &str| s@) == scale_hexes(i as int),
                hexes@.len() == SHADE_COUNT,
                config_preflight_none(config),
                config_colors(config) == insert_all(base, pal.take(i * SHADE_COUNT + j)),
                config_screens(config) == screens,
            decreases SHADE_COUNT - j,
        {
            proof { reveal_strlit("-"); }
            let k: usize = i * SHADE_COUNT + j;
            let key = concat2(concat2(name, "-").as_str(), shade_name_exec(j));
            let value = hexes[j].to_string();
            proof {
                assert(k / 11 == i as int && k % 11 == j as int) by (nonlinear_arith)
                    requires k == i * 11 + j, j < 11;
                assert(pal.take(k + 1).drop_last() == pal.take(k as int));
                assert(pal.take(k + 1).last() == palette_entry(k as int));
                assert(value@ == scale_hexes(i as int)[j as int]);
            }
            add_color(&mut config, key, value);
            j = j + 1;
        }
        i = i + 1;
    }
    assert(pal.take((SCALE_COUNT * SHADE_COUNT) as int) == pal);
    config
}

/// Tailwind's `black` and `white` as near-black `#000001` and near-white
/// `#fffffe`, which email clients' dark modes leave alone.
pub fn add_dark_mode_protection(config: &mut encre_css::Config)
    ensures
        config_colors(*final(config)) == config_colors(*old(config)).insert("black"@, "#000001"@).insert("white"@, "#fffffe"@),
        config_screens(*final(config)) == config_screens(*old(config)),
        config_preflight_none(*final(config)) == config_preflight_none(*old(config)),
        config_rest(*final(config)) == config_rest(*old(config)),
{
    add_color(config, "black".to_string(), "#000001".to_string());
    add_color(config, "white".to_string(), "#fffffe".to_string());
}

/// The email breakpoints: `sm` at 600px and `xs` at 430px.
pub fn add_email_screens(config: &mut encre_css::Config)
    ensures
        config_screens(*final(config)) == config_screens(*old(config)).insert("sm"@, "600px"@).insert("xs"@, "430px"@),
        config_colors(*final(config)) == config_colors(*old(config)),
        config_preflight_none(*final(config)) == config_preflight_none(*old(config)),
        config_rest(*final(config)) == config_rest(*old(config)),
{
    add_screen(config, "sm".to_string(), "600px".to_string());
    add_screen(config, "xs".to_string(), "430px".to_string());
}

// ───────────────────────────── injection ─────────────────────────────

/// The `<style>` block for some CSS.
pub open spec fn style_tag(css: Seq<char>) -> Seq<char> {
    "<style>"@ + css + "</style>"@
}

/// The style block put where no `<head>` was seen: before the first
/// `</html>`, or in front of the document when there is none.
pub open spec fn without_head(out: Seq<char>, tag: Seq<char>) -> Seq<char> {
    match find(out, "</html>"@) {
        Some(k) => out.subrange(0, k) + tag + out.subrange(k, out.len() as int),
        None => tag + out,
    }
}

/// The document with the CSS injected: at the end of the first `<head>`
/// (a pass without ESI tags), else before `</html>` (see `without_head`).
pub open spec fn spec_inject(html: Seq<char>, css: Seq<char>) -> Option<Seq<char>> {
    match rewrite_outcome(html, "style"@, false, RuleView::InjectStyle(style_tag(css))) {
        Ok((out, log)) => Some(if log.head_seen { out } else { without_head(out, style_tag(css)) }),
        Err(_) => None,
    }
}

/// Injects CSS as a `<style>` block (see `spec_inject`).
pub fn inject_style(html: &str, css: &str) -> (r: Result<String, Error>)
    ensures
        r is Ok <==> spec_inject(html@, css@) is Some,
        r matches Ok(s) ==> spec_inject(html@, css@) == Some(s@),
        r matches Err(e) ==> (e matches Error::HtmlRewrite(m)
            && rewrite_outcome(html@, "style"@, false, RuleView::InjectStyle(style_tag(css@))) matches Err(o) && o == m@),
{
    proof { reveal_strlit("style"); }
    let mut tag = lit("<style>");
    push_str(&mut tag, css);
    push_str(&mut tag, "</style>");
    let tag_s = string_of(tag.as_slice());
    let mut log = RewriteLog::new();
    let rule = HtmlRule::InjectStyle(tag_s);
    match rewrite(html, "style", false, &rule, &mut log) {
        Ok(s) => {
            if log.head_seen {
                Ok(s)
            } else {
                let out = chars_of(s.as_str());
                let close = lit("</html>");
                let mut r: Vec<char> = Vec::new();
                match find_in(&out, &close, 0) {
                    Some(k) => {
                        proof { lemma_find_from_facts(out@, close@, 0); }
                        push_range(&mut r, &out, 0, k);
                        push_all(&mut r, &tag);
                        push_range(&mut r, &out, k, out.len());
                    },
                    None => {
                        push_all(&mut r, &tag);
                        push_all(&mut r, &out);
                    },
                }
                Ok(string_of(r.as_slice()))
            }
        },
        Err(m) => Err(Error::HtmlRewrite(m)),
    }
}

/// What the pass makes of a document given the generated CSS: the document
/// itself when the CSS is blank, else the document with the CSS injected.
pub open spec fn spec_with_css(html: Seq<char>, css: Seq<char>) -> Option<Seq<char>> {
    if trim(css).len() == 0 { Some(html) } else { spec_inject(html, css) }
}

/// Handles generated CSS (see `spec_with_css`).
pub fn process_css(html: &str, css: &str) -> (r: Result<String, Error>)
    ensures
        r is Ok <==> spec_with_css(html@, css@) is Some,
        r matches Ok(s) ==> spec_with_css(html@, css@) == Some(s@),
        r matches Err(e) ==> (e matches Error::HtmlRewrite(m)
            && rewrite_outcome(html@, "style"@, false, RuleView::InjectStyle(style_tag(css@))) matches Err(o) && o == m@),
{
    let cv = chars_of(css);
    if trimmed(&cv).len() == 0 {
        return Ok(html.to_string());
    }
    inject_style(html, css)
}

/// Generates the CSS for the document's classes (`generated_css`) and
/// injects it (see `process_css`).
pub fn process(html: &str, config: &encre_css::Config) -> (r: Result<String, Error>)
    ensures
        r is Ok <==> spec_with_css(html@, generated_css(html@, *config)) is Some,
        r matches Ok(s) ==> spec_with_css(html@, generated_css(html@, *config)) == Some(s@),
        r matches Err(e) ==> (e matches Error::HtmlRewrite(m)
            && rewrite_outcome(html@, "style"@, false, RuleView::InjectStyle(style_tag(generated_css(html@, *config))))
                matches Err(o) && o == m@),
{
    let css = generate(html, config);
    process_css(html, css.as_str())
}

} // verus!
