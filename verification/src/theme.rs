//! Theme colors: the palette model, the default palette, the preset
//! names, and the hex parsing the interpolation starts from. The color
//! interpolation itself works in floating point and lives outside the
//! crate.

use vstd::prelude::*;
use vstd::string::StrSliceExecFns;
use vstd::string::StringExecFns;

verus! {

/// The ten base shades of a palette, darkest first, as `#rrggbb` text.
#[derive(Debug, Clone)]
pub struct BaseColors {
    pub c950: String,
    pub c900: String,
    pub c800: String,
    pub c700: String,
    pub c600: String,
    pub c500: String,
    pub c400: String,
    pub c300: String,
    pub c200: String,
    pub c100: String,
}

/// The four shades of an accent color.
#[derive(Debug, Clone)]
pub struct AccentColors {
    pub c600: String,
    pub c500: String,
    pub c400: String,
    pub c300: String,
}

/// A full theme: base shades and the semantic accents.
#[derive(Debug, Clone)]
pub struct ThemeConfig {
    pub base: BaseColors,
    pub primary: AccentColors,
    pub secondary: AccentColors,
    pub error: AccentColors,
    pub success: AccentColors,
    pub info: AccentColors,
    pub warning: AccentColors,
}

/// The simplified shape a preset file declares.
#[derive(Debug, Clone)]
pub struct ThemePreset {
    pub name: String,
    pub description: String,
    pub background: String,
    pub chat_panel: String,
    pub primary_accent: String,
    pub secondary_accent: String,
    pub text_primary: String,
    pub text_muted: String,
}

impl BaseColors {
    /// The stock slate palette.
    pub fn standard() -> (r: BaseColors)
        ensures
            r.c950@ == "#020617"@,
            r.c100@ == "#f1f5f9"@,
    {
        proof {
            reveal_strlit("#020617");
            reveal_strlit("#f1f5f9");
        }
        BaseColors {
            c950: "#020617".to_owned(),
            c900: "#0f172a".to_owned(),
            c800: "#1e293b".to_owned(),
            c700: "#334155".to_owned(),
            c600: "#475569".to_owned(),
            c500: "#64748b".to_owned(),
            c400: "#94a3b8".to_owned(),
            c300: "#cbd5e1".to_owned(),
            c200: "#e2e8f0".to_owned(),
            c100: "#f1f5f9".to_owned(),
        }
    }
}

impl AccentColors {
    /// The stock teal accent.
    pub fn standard() -> (r: AccentColors)
        ensures
            r.c500@ == "#14b8a6"@,
    {
        proof {
            reveal_strlit("#14b8a6");
        }
        AccentColors {
            c600: "#0d9488".to_owned(),
            c500: "#14b8a6".to_owned(),
            c400: "#2dd4bf".to_owned(),
            c300: "#5eead4".to_owned(),
        }
    }
}

/// The theme engine: it owns the preset catalogue.
pub struct ThemeManager;

impl ThemeManager {
    /// A theme engine.
    pub fn new() -> ThemeManager {
        ThemeManager
    }

    /// The names of the built-in presets.
    pub fn list_presets(&self) -> (r: Vec<String>)
        ensures
            r@.len() == 10,
            r@[0]@ == "arctic_ice"@,
            r@[1]@ == "cyberpunk_glow"@,
            r@[2]@ == "earthy_minimal"@,
            r@[3]@ == "forest_night"@,
            r@[4]@ == "midnight_neon"@,
            r@[5]@ == "monochrome_pro"@,
            r@[6]@ == "ocean_breeze"@,
            r@[7]@ == "rose_noir"@,
            r@[8]@ == "soft_pastel"@,
            r@[9]@ == "solar_flare"@,
    {
        proof {
            reveal_strlit("arctic_ice");
            reveal_strlit("cyberpunk_glow");
            reveal_strlit("earthy_minimal");
            reveal_strlit("forest_night");
            reveal_strlit("midnight_neon");
            reveal_strlit("monochrome_pro");
            reveal_strlit("ocean_breeze");
            reveal_strlit("rose_noir");
            reveal_strlit("soft_pastel");
            reveal_strlit("solar_flare");
        }
        let mut out: Vec<String> = Vec::new();
        out.push("arctic_ice".to_owned());
        out.push("cyberpunk_glow".to_owned());
        out.push("earthy_minimal".to_owned());
        out.push("forest_night".to_owned());
        out.push("midnight_neon".to_owned());
        out.push("monochrome_pro".to_owned());
        out.push("ocean_breeze".to_owned());
        out.push("rose_noir".to_owned());
        out.push("soft_pastel".to_owned());
        out.push("solar_flare".to_owned());
        out
    }

    /// The red, green and blue bytes of a `#rrggbb` string. A malformed
    /// string reads as zero, as a fold over its hex digits would leave
    /// it.
    pub fn hex_to_rgb(&self, hex: &str) -> (r: (u8, u8, u8))
        ensures
            r == rgb_of(hex@),
    {
        let n = hex.unicode_len();
        let start: usize = if n > 0 && hex.get_char(0) == '#' {
            1
        } else {
            0
        };
        let mut val: u32 = 0;
        let mut i: usize = start;
        let mut ok = true;
        while i < n
            invariant
                n == hex@.len(),
                start <= i <= n,
                (if ok {
                    Some(val)
                } else {
                    None::<u32>
                }) == fold_hex(hex@, start as int, i as int),
            decreases n - i,
        {
            let c = hex.get_char(i);
            let d: u32 = if '0' <= c && c <= '9' {
                (c as u32) - 48
            } else if 'a' <= c && c <= 'f' {
                (c as u32) - 87
            } else if 'A' <= c && c <= 'F' {
                (c as u32) - 55
            } else {
                16
            };
            if d == 16 || val > 0xFFFFFF {
                ok = false;
            }
            if ok {
                val = val * 16 + d;
            }
            i += 1;
        }
        let out = if ok {
            val
        } else {
            0
        };
        (((out >> 16) & 0xFF) as u8, ((out >> 8) & 0xFF) as u8, (out & 0xFF) as u8)
    }
}

/// The hex value of one digit character, or 16 for anything else.
pub open spec fn hex_char_val(c: char) -> u32 {
    if '0' <= c && c <= '9' {
        ((c as u32) - 48) as u32
    } else if 'a' <= c && c <= 'f' {
        ((c as u32) - 87) as u32
    } else if 'A' <= c && c <= 'F' {
        ((c as u32) - 55) as u32
    } else {
        16
    }
}

/// Fold the hex digits of `s[from..to]` into a value; a bad digit or a
/// value past 24 bits spoils the fold.
pub open spec fn fold_hex(s: Seq<char>, from: int, to: int) -> Option<u32>
    decreases to - from,
{
    if to <= from {
        Some(0)
    } else {
        match fold_hex(s, from, to - 1) {
            None => None,
            Some(v) => {
                let d = hex_char_val(s[to - 1]);
                if d == 16 || v > 0xFFFFFF {
                    None
                } else {
                    Some((v * 16 + d) as u32)
                }
            },
        }
    }
}

/// The color a hex string denotes: a leading `#` is skipped, a bad
/// string reads as black.
pub open spec fn rgb_of(s: Seq<char>) -> (u8, u8, u8) {
    let start: int = if s.len() > 0 && s[0] == '#' {
        1
    } else {
        0
    };
    let v = (match fold_hex(s, start, s.len() as int) {
        Some(v) => v,
        None => 0,
    });
    (((v >> 16) & 0xFF) as u8, ((v >> 8) & 0xFF) as u8, (v & 0xFF) as u8)
}

} // verus!
