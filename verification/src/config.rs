//! The immutable configuration: the keybinding table and a handful of
//! style scalars.
//!
//! Configuration is resolved once, before the event loop starts.  The
//! built-in defaults live here as plain data; reading and merging
//! configuration files is left to the embedding program, which hands
//! the resolved table in.

use vstd::prelude::*;
use vstd::string::StringSliceAdditionalSpecFns;

use crate::error::WmError;
use crate::layout::LayoutCmd;

verus! {

/// Modifier bitmask values of the wire protocol.
pub const MOD_SHIFT: u16 = 1;

pub const MOD_CONTROL: u16 = 4;

pub const MOD_ALT: u16 = 8;

pub const MOD_SUPER: u16 = 64;

/// Whether a binding fires on key press or key release.
#[derive(Clone, Copy, Debug, PartialEq, Eq, Hash, Structural)]
pub enum KeybindAction {
    Press,
    Release,
}

/// The command vocabulary the configuration layer produces and the
/// coordinator consumes.
#[derive(Clone, Debug)]
pub enum Command {
    Quit,
    Restart,
    ShowBorder,
    HideBorder,
    Close,
    Sink,
    FocusNext,
    FocusPrev,
    FocusNextMonitor,
    FocusPrevMonitor,
    NextLayout,
    Spawn(String),
    Screen(usize),
    MoveToScreen(usize),
    MovePointerRel(i16, i16),
    MouseClickLeft,
    LayoutCommand(LayoutCmd),
}

/// One entry of the keybinding table: an exact-match key.
#[derive(Clone, Debug)]
pub struct Keybind {
    pub action: KeybindAction,
    pub modmask: u16,
    pub keycode: u8,
    pub command: Command,
}

#[derive(Clone, Copy, Debug, PartialEq, Eq, Structural)]
pub struct BorderConfig {
    pub width: u32,
    pub color_focused: u32,
    pub color_regular: u32,
}

pub struct Config {
    pub keybind: Vec<Keybind>,
    pub border: BorderConfig,
    pub background_color: u32,
}

/// Does a table entry answer to this exact (action, modifiers, key)
/// triple?  Lookup never matches partial or superset modifier masks.
pub open spec fn kb_matches(kb: Keybind, on: KeybindAction, modifier: u16, keycode: u8) -> bool {
    kb.action == on && kb.modmask == modifier && kb.keycode == keycode
}

impl Config {
    pub open spec fn wf(self) -> bool {
        self.border.width <= 0xff
    }

    /// Exact-match lookup in the keybinding table; the first matching
    /// entry wins.
    pub fn keybind_match(&self, on: KeybindAction, modifier: u16, keycode: u8) -> (r: Option<
        &Command,
    >)
        ensures
            match r {
                Some(c) => exists|i: int|
                    0 <= i < self.keybind@.len() && #[trigger] kb_matches(
                        self.keybind@[i],
                        on,
                        modifier,
                        keycode,
                    ) && *c == self.keybind@[i].command && forall|j: int|
                        0 <= j < i ==> !kb_matches(self.keybind@[j], on, modifier, keycode),
                None => forall|i: int|
                    0 <= i < self.keybind@.len() ==> !#[trigger] kb_matches(
                        self.keybind@[i],
                        on,
                        modifier,
                        keycode,
                    ),
            },
    {
        let n: usize = self.keybind.len();
        let mut i: usize = 0;
        while i < n
            invariant
                i <= n,
                n == self.keybind@.len(),
                forall|j: int| 0 <= j < i ==> !kb_matches(self.keybind@[j], on, modifier, keycode),
            decreases n - i,
        {
            let kb = &self.keybind[i];
            if kb.action == on && kb.modmask == modifier && kb.keycode == keycode {
                assert(kb_matches(self.keybind@[i as int], on, modifier, keycode));
                return Some(&self.keybind[i].command);
            }
            i = i + 1;
        }
        None
    }

    /// The full keybinding table, for the startup pass that grabs
    /// every bound key.
    pub fn keybind_iter(&self) -> (r: &Vec<Keybind>)
        ensures
            r == &self.keybind,
    {
        &self.keybind
    }
}

/// A hexadecimal digit in ASCII.
pub open spec fn is_hex_digit(b: u8) -> bool {
    (48 <= b && b <= 57) || (97 <= b && b <= 102) || (65 <= b && b <= 70)
}

pub open spec fn hex_digit_value(b: u8) -> int {
    if 48 <= b && b <= 57 {
        b - 48
    } else if 97 <= b && b <= 102 {
        b - 87
    } else {
        b - 55
    }
}

pub open spec fn all_hex(s: Seq<u8>) -> bool {
    forall|i: int| 0 <= i < s.len() ==> is_hex_digit(#[trigger] s[i])
}

/// The number the digit string denotes, most significant digit first.
pub open spec fn hex_value(s: Seq<u8>) -> int
    decreases s.len(),
{
    if s.len() == 0 {
        0
    } else {
        hex_value(s.drop_last()) * 16 + hex_digit_value(s.last())
    }
}

/// The byte string with every leading `#` removed.
pub open spec fn strip_hash(s: Seq<u8>) -> Seq<u8>
    decreases s.len(),
{
    if s.len() > 0 && s[0] == 35 {
        strip_hash(s.drop_first())
    } else {
        s
    }
}

/// What a colour string denotes: strip leading `#`, then read the rest
/// as hexadecimal, provided it is non-empty, all hex digits, and fits
/// in 32 bits.
pub open spec fn color_spec(s: Seq<u8>) -> Option<u32> {
    let t = strip_hash(s);
    if t.len() > 0 && all_hex(t) && hex_value(t) <= u32::MAX {
        Some(hex_value(t) as u32)
    } else {
        None
    }
}

proof fn lemma_hex_value_nonneg(s: Seq<u8>)
    requires
        all_hex(s),
    ensures
        hex_value(s) >= 0,
    decreases s.len(),
{
    if s.len() > 0 {
        assert(all_hex(s.drop_last())) by {
            assert forall|i: int| 0 <= i < s.len() - 1 implies is_hex_digit(
                #[trigger] s.drop_last()[i],
            ) by {
                assert(s.drop_last()[i] == s[i]);
            };
        };
        lemma_hex_value_nonneg(s.drop_last());
    }
}

/// Parse a colour of the form `#RRGGBB` (hexadecimal; the leading `#`
/// optional and repeatable) into its numeric value.  Returns the
/// configuration error exactly when the string does not denote a
/// 32-bit colour.
pub fn parse_color(hex: &str) -> (r: Result<u32, WmError>)
    ensures
        match color_spec(hex.spec_bytes()) {
            Some(v) => r == Ok::<u32, WmError>(v),
            None => r matches Err(e) && e is InvalidConfig,
        },
{
    let bytes: &[u8] = hex.as_bytes();
    let n: usize = bytes.len();
    let ghost full: Seq<u8> = hex.spec_bytes();
    proof {
        assert(full.skip(0) =~= full);
    }
    let mut i: usize = 0;
    while i < n && bytes[i] == 35
        invariant
            i <= n,
            n == full.len(),
            bytes@ == full,
            strip_hash(full) == strip_hash(full.skip(i as int)),
        decreases n - i,
    {
        proof {
            assert(full.skip(i as int).drop_first() =~= full.skip(i as int + 1));
        }
        i = i + 1;
    }
    proof {
        if i < n {
            assert(strip_hash(full.skip(i as int)) == full.skip(i as int));
        } else {
            assert(full.skip(i as int) =~= Seq::<u8>::empty());
        }
    }
    let ghost t: Seq<u8> = strip_hash(full);
    if i == n {
        proof {
            assert(t.len() == 0);
        }
        return Err(WmError::InvalidConfig { reason: "expect a colour in hex".to_owned() });
    }
    assert(t == full.skip(i as int));
    let start: usize = i;
    let mut acc: u64 = 0;
    let mut over: bool = false;
    let mut j: usize = start;
    while j < n
        invariant
            start <= j <= n,
            n == full.len(),
            bytes@ == full,
            full == hex.spec_bytes(),
            start < n,
            t == full.skip(start as int),
            t == strip_hash(full),
            forall|k: int| start <= k < j ==> is_hex_digit(#[trigger] full[k]),
            !over ==> acc == hex_value(full.subrange(start as int, j as int)) && acc <= u32::MAX,
            over ==> hex_value(full.subrange(start as int, j as int)) > u32::MAX,
        decreases n - j,
    {
        let b: u8 = bytes[j];
        let d: u64;
        if 48 <= b && b <= 57 {
            d = (b - 48) as u64;
        } else if 97 <= b && b <= 102 {
            d = (b - 87) as u64;
        } else if 65 <= b && b <= 70 {
            d = (b - 55) as u64;
        } else {
            proof {
                assert(b == full[j as int]);
                assert(!is_hex_digit(b));
                assert(t[j - start] == full[j as int]);
                assert(!all_hex(t));
                assert(color_spec(full) is None);
            }
            return Err(WmError::InvalidConfig {
                reason: "expect a colour in hex".to_owned(),
            });
        }
        proof {
            let pre = full.subrange(start as int, j as int);
            let post = full.subrange(start as int, j as int + 1);
            assert(post.drop_last() =~= pre);
            assert(post.last() == full[j as int]);
            assert(all_hex(pre)) by {
                assert forall|k: int| 0 <= k < pre.len() implies is_hex_digit(
                    #[trigger] pre[k],
                ) by {
                    assert(pre[k] == full[start + k]);
                };
            };
            lemma_hex_value_nonneg(pre);
            assert(hex_value(post) == hex_value(pre) * 16 + hex_digit_value(full[j as int]));
        }
        if over {
            // the value can only keep growing
        } else {
            let next: u64 = acc * 16 + d;
            if next > 0xffff_ffff {
                over = true;
            } else {
                acc = next;
            }
        }
        j = j + 1;
    }
    proof {
        assert(full.subrange(start as int, n as int) =~= t);
        assert(all_hex(t));
        assert(t.len() > 0);
    }
    if over {
        return Err(WmError::InvalidConfig { reason: "colour does not fit 32 bits".to_owned() });
    }
    Ok(acc as u32)
}

/// Shorthand for one table entry.
pub open spec fn kb(action: KeybindAction, modmask: u16, keycode: u8, command: Command) -> Keybind {
    Keybind { action, modmask, keycode, command }
}

/// The built-in keybinding table.  Entries that carry a `String`
/// payload are pinned through their view.
pub open spec fn default_keybind_ok(s: Seq<Keybind>) -> bool {
    &&& s.len() == 33
    &&& s[0].action == KeybindAction::Press && s[0].modmask == MOD_SUPER && s[0].keycode == 33
        && (s[0].command matches Command::Spawn(p) && p@ == "/usr/bin/dmenu_run"@)
    &&& s[1].action == KeybindAction::Press && s[1].modmask == MOD_SUPER && s[1].keycode == 28
        && (s[1].command matches Command::Spawn(p) && p@ == "/usr/bin/xterm"@)
    &&& s[2] == kb(KeybindAction::Press, (MOD_SUPER | MOD_SHIFT) as u16, 24, Command::Quit)
    &&& s[3] == kb(KeybindAction::Press, MOD_SUPER, 54, Command::Close)
    &&& s[4] == kb(KeybindAction::Press, MOD_SUPER, 23, Command::FocusNext)
    &&& s[5] == kb(KeybindAction::Press, (MOD_SUPER | MOD_SHIFT) as u16, 23, Command::FocusPrev)
    &&& s[6] == kb(KeybindAction::Press, MOD_SUPER, 44, Command::FocusNextMonitor)
    &&& s[7] == kb(KeybindAction::Press, MOD_SUPER, 45, Command::FocusPrevMonitor)
    &&& s[8] == kb(KeybindAction::Press, MOD_SUPER, 65, Command::NextLayout)
    &&& s[9] == kb(KeybindAction::Press, MOD_SUPER, 39, Command::Sink)
    &&& s[10] == kb(KeybindAction::Press, 0, 133, Command::ShowBorder)
    &&& s[11] == kb(KeybindAction::Release, MOD_SUPER, 133, Command::HideBorder)
    &&& s[12] == kb(
        KeybindAction::Press,
        MOD_SUPER,
        43,
        Command::LayoutCommand(LayoutCmd::Shrink),
    )
    &&& s[13] == kb(KeybindAction::Press, MOD_SUPER, 46, Command::LayoutCommand(LayoutCmd::Grow))
    &&& s[14] == kb(KeybindAction::Press, MOD_SUPER, 10, Command::Screen(0))
    &&& s[15] == kb(KeybindAction::Press, MOD_SUPER, 11, Command::Screen(1))
    &&& s[16] == kb(KeybindAction::Press, MOD_SUPER, 12, Command::Screen(2))
    &&& s[17] == kb(KeybindAction::Press, MOD_SUPER, 13, Command::Screen(3))
    &&& s[18] == kb(KeybindAction::Press, MOD_SUPER, 14, Command::Screen(4))
    &&& s[19] == kb(KeybindAction::Press, (MOD_SUPER | MOD_SHIFT) as u16, 10, Command::MoveToScreen(0))
    &&& s[20] == kb(KeybindAction::Press, (MOD_SUPER | MOD_SHIFT) as u16, 11, Command::MoveToScreen(1))
    &&& s[21] == kb(KeybindAction::Press, (MOD_SUPER | MOD_SHIFT) as u16, 12, Command::MoveToScreen(2))
    &&& s[22] == kb(KeybindAction::Press, (MOD_SUPER | MOD_SHIFT) as u16, 13, Command::MoveToScreen(3))
    &&& s[23] == kb(KeybindAction::Press, (MOD_SUPER | MOD_SHIFT) as u16, 14, Command::MoveToScreen(4))
    &&& s[24] == kb(KeybindAction::Press, MOD_SUPER, 111, Command::MovePointerRel(0, -32i16))
    &&& s[25] == kb(KeybindAction::Press, MOD_SUPER, 116, Command::MovePointerRel(0, 32i16))
    &&& s[26] == kb(KeybindAction::Press, MOD_SUPER, 113, Command::MovePointerRel(-32i16, 0))
    &&& s[27] == kb(KeybindAction::Press, MOD_SUPER, 114, Command::MovePointerRel(32i16, 0))
    &&& s[28] == kb(
        KeybindAction::Press,
        (MOD_SUPER | MOD_SHIFT) as u16,
        111,
        Command::MovePointerRel(0, -1i16),
    )
    &&& s[29] == kb(
        KeybindAction::Press,
        (MOD_SUPER | MOD_SHIFT) as u16,
        116,
        Command::MovePointerRel(0, 1i16),
    )
    &&& s[30] == kb(
        KeybindAction::Press,
        (MOD_SUPER | MOD_SHIFT) as u16,
        113,
        Command::MovePointerRel(-1i16, 0),
    )
    &&& s[31] == kb(
        KeybindAction::Press,
        (MOD_SUPER | MOD_SHIFT) as u16,
        114,
        Command::MovePointerRel(1i16, 0),
    )
    &&& s[32] == kb(KeybindAction::Press, MOD_SUPER, 36, Command::MouseClickLeft)
}

/// The built-in border style and background colour.
pub open spec fn default_border() -> BorderConfig {
    BorderConfig { width: 1, color_focused: 0x00f080, color_regular: 0x00003e }
}

impl Default for Config {
    /// The built-in configuration: the default keybinding table, a
    /// one-pixel border, and the default colours.
    fn default() -> (r: Config)
        ensures
            default_keybind_ok(r.keybind@),
            r.border == default_border(),
            r.background_color == 0x343255,
            r.wf(),
    {
        let mut v: Vec<Keybind> = Vec::new();
        v.push(Keybind {
            action: KeybindAction::Press,
            modmask: MOD_SUPER,
            keycode: 33,
            command: Command::Spawn("/usr/bin/dmenu_run".to_owned()),
        });
        v.push(Keybind {
            action: KeybindAction::Press,
            modmask: MOD_SUPER,
            keycode: 28,
            command: Command::Spawn("/usr/bin/xterm".to_owned()),
        });
        v.push(Keybind {
            action: KeybindAction::Press,
            modmask: MOD_SUPER | MOD_SHIFT,
            keycode: 24,
            command: Command::Quit,
        });
        v.push(Keybind {
            action: KeybindAction::Press,
            modmask: MOD_SUPER,
            keycode: 54,
            command: Command::Close,
        });
        v.push(Keybind {
            action: KeybindAction::Press,
            modmask: MOD_SUPER,
            keycode: 23,
            command: Command::FocusNext,
        });
        v.push(Keybind {
            action: KeybindAction::Press,
            modmask: MOD_SUPER | MOD_SHIFT,
            keycode: 23,
            command: Command::FocusPrev,
        });
        v.push(Keybind {
            action: KeybindAction::Press,
            modmask: MOD_SUPER,
            keycode: 44,
            command: Command::FocusNextMonitor,
        });
        v.push(Keybind {
            action: KeybindAction::Press,
            modmask: MOD_SUPER,
            keycode: 45,
            command: Command::FocusPrevMonitor,
        });
        v.push(Keybind {
            action: KeybindAction::Press,
            modmask: MOD_SUPER,
            keycode: 65,
            command: Command::NextLayout,
        });
        v.push(Keybind {
            action: KeybindAction::Press,
            modmask: MOD_SUPER,
            keycode: 39,
            command: Command::Sink,
        });
        v.push(Keybind {
            action: KeybindAction::Press,
            modmask: 0,
            keycode: 133,
            command: Command::ShowBorder,
        });
        v.push(Keybind {
            action: KeybindAction::Release,
            modmask: MOD_SUPER,
            keycode: 133,
            command: Command::HideBorder,
        });
        v.push(Keybind {
            action: KeybindAction::Press,
            modmask: MOD_SUPER,
            keycode: 43,
            command: Command::LayoutCommand(LayoutCmd::Shrink),
        });
        v.push(Keybind {
            action: KeybindAction::Press,
            modmask: MOD_SUPER,
            keycode: 46,
            command: Command::LayoutCommand(LayoutCmd::Grow),
        });
        v.push(Keybind {
            action: KeybindAction::Press,
            modmask: MOD_SUPER,
            keycode: 10,
            command: Command::Screen(0),
        });
        v.push(Keybind {
            action: KeybindAction::Press,
            modmask: MOD_SUPER,
            keycode: 11,
            command: Command::Screen(1),
        });
        v.push(Keybind {
            action: KeybindAction::Press,
            modmask: MOD_SUPER,
            keycode: 12,
            command: Command::Screen(2),
        });
        v.push(Keybind {
            action: KeybindAction::Press,
            modmask: MOD_SUPER,
            keycode: 13,
            command: Command::Screen(3),
        });
        v.push(Keybind {
            action: KeybindAction::Press,
            modmask: MOD_SUPER,
            keycode: 14,
            command: Command::Screen(4),
        });
        v.push(Keybind {
            action: KeybindAction::Press,
            modmask: MOD_SUPER | MOD_SHIFT,
            keycode: 10,
            command: Command::MoveToScreen(0),
        });
        v.push(Keybind {
            action: KeybindAction::Press,
            modmask: MOD_SUPER | MOD_SHIFT,
            keycode: 11,
            command: Command::MoveToScreen(1),
        });
        v.push(Keybind {
            action: KeybindAction::Press,
            modmask: MOD_SUPER | MOD_SHIFT,
            keycode: 12,
            command: Command::MoveToScreen(2),
        });
        v.push(Keybind {
            action: KeybindAction::Press,
            modmask: MOD_SUPER | MOD_SHIFT,
            keycode: 13,
            command: Command::MoveToScreen(3),
        });
        v.push(Keybind {
            action: KeybindAction::Press,
            modmask: MOD_SUPER | MOD_SHIFT,
            keycode: 14,
            command: Command::MoveToScreen(4),
        });
        v.push(Keybind {
            action: KeybindAction::Press,
            modmask: MOD_SUPER,
            keycode: 111,
            command: Command::MovePointerRel(0, -32i16),
        });
        v.push(Keybind {
            action: KeybindAction::Press,
            modmask: MOD_SUPER,
            keycode: 116,
            command: Command::MovePointerRel(0, 32i16),
        });
        v.push(Keybind {
            action: KeybindAction::Press,
            modmask: MOD_SUPER,
            keycode: 113,
            command: Command::MovePointerRel(-32i16, 0),
        });
        v.push(Keybind {
            action: KeybindAction::Press,
            modmask: MOD_SUPER,
            keycode: 114,
            command: Command::MovePointerRel(32i16, 0),
        });
        v.push(Keybind {
            action: KeybindAction::Press,
            modmask: MOD_SUPER | MOD_SHIFT,
            keycode: 111,
            command: Command::MovePointerRel(0, -1i16),
        });
        v.push(Keybind {
            action: KeybindAction::Press,
            modmask: MOD_SUPER | MOD_SHIFT,
            keycode: 116,
            command: Command::MovePointerRel(0, 1i16),
        });
        v.push(Keybind {
            action: KeybindAction::Press,
            modmask: MOD_SUPER | MOD_SHIFT,
            keycode: 113,
            command: Command::MovePointerRel(-1i16, 0),
        });
        v.push(Keybind {
            action: KeybindAction::Press,
            modmask: MOD_SUPER | MOD_SHIFT,
            keycode: 114,
            command: Command::MovePointerRel(1i16, 0),
        });
        v.push(Keybind {
            action: KeybindAction::Press,
            modmask: MOD_SUPER,
            keycode: 36,
            command: Command::MouseClickLeft,
        });
        Config {
            keybind: v,
            border: BorderConfig { width: 1, color_focused: 0x00f080, color_regular: 0x00003e },
            background_color: 0x343255,
        }
    }
}

} // verus!
