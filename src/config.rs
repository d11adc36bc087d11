//! The 24-byte device configuration record and its named, validated setters.

use vstd::prelude::*;
use vstd::string::*;
use crate::bytes::{le16_at, le16_bytes, lemma_le16_read_write, lemma_le16_write_read, read_u16_le};
use crate::error::HubError;

verus! {

/// Size of the configuration record.
pub const CONFIG_SIZE: usize = 24;

/// Largest accepted screen brightness.
pub const MAX_BRIGHTNESS: u8 = 30;

/// The device's settings, one field per position of the record.
#[derive(Debug, Clone, Copy, PartialEq, Eq, Structural)]
pub struct DeviceConfig {
    pub cur_lang: u8,
    pub web_help_onoff: u8,
    pub memory_page: u8,
    pub screen_dir: u8,
    pub screen_brightness: u8,
    pub album_cut_black: u8,
    pub album_cut_frame: u8,
    pub fun_single_click: u8,
    pub fun_double_click: u8,
    pub fun_tilt: u8,
    pub fun_shake: u8,
    pub fun_shake_sens: u8,
    pub screen_onoff_by_usb: u8,
    pub reserve1: u8,
    pub reserve2: u8,
    pub reserve3: u8,
    pub reserve4: u8,
    pub reserve5: u8,
    pub power_style: u8,
    pub image_switch_random: u8,
    pub image_switch_mode: u16,
    pub image_switch_interval: u8,
    pub srgb_style: u8,
}

/// The settings stored in the first 24 bytes of `d`.
pub open spec fn config_from_bytes(d: Seq<u8>) -> DeviceConfig {
    DeviceConfig {
        cur_lang: d[0],
        web_help_onoff: d[1],
        memory_page: d[2],
        screen_dir: d[3],
        screen_brightness: d[4],
        album_cut_black: d[5],
        album_cut_frame: d[6],
        fun_single_click: d[7],
        fun_double_click: d[8],
        fun_tilt: d[9],
        fun_shake: d[10],
        fun_shake_sens: d[11],
        screen_onoff_by_usb: d[12],
        reserve1: d[13],
        reserve2: d[14],
        reserve3: d[15],
        reserve4: d[16],
        reserve5: d[17],
        power_style: d[18],
        image_switch_random: d[19],
        image_switch_mode: le16_at(d, 20),
        image_switch_interval: d[22],
        srgb_style: d[23],
    }
}

/// The 24-byte record of `c`.
pub open spec fn config_bytes(c: DeviceConfig) -> Seq<u8> {
    seq![
        c.cur_lang,
        c.web_help_onoff,
        c.memory_page,
        c.screen_dir,
        c.screen_brightness,
        c.album_cut_black,
        c.album_cut_frame,
        c.fun_single_click,
        c.fun_double_click,
        c.fun_tilt,
        c.fun_shake,
        c.fun_shake_sens,
        c.screen_onoff_by_usb,
        c.reserve1,
        c.reserve2,
        c.reserve3,
        c.reserve4,
        c.reserve5,
        c.power_style,
        c.image_switch_random,
    ] + le16_bytes(c.image_switch_mode) + seq![c.image_switch_interval, c.srgb_style]
}

/// A setting that can be changed by name.
#[derive(Debug, Clone, Copy, PartialEq, Eq, Structural)]
pub enum ConfigField {
    Brightness,
    Rotation,
    MemoryPage,
    Interval,
    Random,
    Crop,
    ScreenOnOffByUsb,
    ShakeSens,
    PowerStyle,
    SrgbStyle,
    SwitchMode,
}

/// The setting a name (or its long alias) stands for.
pub open spec fn field_named(name: Seq<char>) -> Option<ConfigField> {
    if name == "brightness"@ || name == "screen_brightness"@ {
        Some(ConfigField::Brightness)
    } else if name == "rotation"@ || name == "screen_dir"@ {
        Some(ConfigField::Rotation)
    } else if name == "page"@ || name == "memory_page"@ {
        Some(ConfigField::MemoryPage)
    } else if name == "interval"@ || name == "image_switch_interval"@ {
        Some(ConfigField::Interval)
    } else if name == "random"@ || name == "image_switch_random"@ {
        Some(ConfigField::Random)
    } else if name == "crop"@ || name == "album_cut_black"@ {
        Some(ConfigField::Crop)
    } else if name == "screen_onoff_by_usb"@ {
        Some(ConfigField::ScreenOnOffByUsb)
    } else if name == "shake_sens"@ || name == "fun_shake_sens"@ {
        Some(ConfigField::ShakeSens)
    } else if name == "power_style"@ {
        Some(ConfigField::PowerStyle)
    } else if name == "srgb_style"@ {
        Some(ConfigField::SrgbStyle)
    } else if name == "switch_mode"@ || name == "image_switch_mode"@ {
        Some(ConfigField::SwitchMode)
    } else {
        None
    }
}

/// The device code for a rotation given in degrees: 0, 180, 90 and 270
/// degrees are codes 0, 1, 2 and 3.
pub open spec fn rotation_code(value: Seq<char>) -> Option<u8> {
    if value == "0"@ {
        Some(0u8)
    } else if value == "180"@ {
        Some(1u8)
    } else if value == "90"@ {
        Some(2u8)
    } else if value == "270"@ {
        Some(3u8)
    } else {
        None
    }
}

/// The rotation in degrees that a device code stands for.
pub open spec fn rotation_degrees_of(code: u8) -> Option<u16> {
    if code == 0 {
        Some(0u16)
    } else if code == 1 {
        Some(180u16)
    } else if code == 2 {
        Some(90u16)
    } else if code == 3 {
        Some(270u16)
    } else {
        None
    }
}

pub open spec fn is_digit(c: char) -> bool {
    '0' <= c && c <= '9'
}

pub open spec fn digit_value(c: char) -> nat {
    (c as u32 - '0' as u32) as nat
}

/// The number written by a sequence of decimal digits.
pub open spec fn digits_value(s: Seq<char>) -> nat
    decreases s.len(),
{
    if s.len() == 0 {
        0
    } else {
        digits_value(s.drop_last()) * 10 + digit_value(s.last())
    }
}

/// The number a text denotes: an optional `+`, then one or more decimal
/// digits.
pub open spec fn decimal_value(s: Seq<char>) -> Option<nat> {
    let d = unsigned_part(s);
    if d.len() > 0 && all_digits(d) {
        Some(digits_value(d))
    } else {
        None
    }
}

/// The text without its leading `+`, if it has one.
pub open spec fn unsigned_part(s: Seq<char>) -> Seq<char> {
    if s.len() > 0 && s[0] == '+' {
        s.drop_first()
    } else {
        s
    }
}

pub open spec fn all_digits(d: Seq<char>) -> bool {
    forall|i: int| 0 <= i < d.len() ==> is_digit(#[trigger] d[i])
}

/// The number a text denotes, where it is at most `max`.
pub open spec fn bounded_value(s: Seq<char>, max: nat) -> Option<nat> {
    match decimal_value(s) {
        Some(v) => if v <= max {
            Some(v)
        } else {
            None
        },
        None => None,
    }
}

/// What setting field `name` to `value` makes of `c`, or why it is refused.
pub open spec fn spec_set_field(c: DeviceConfig, name: Seq<char>, value: Seq<char>) -> Result<
    DeviceConfig,
    HubError,
> {
    match field_named(name) {
        None => Err(HubError::UnknownField),
        Some(ConfigField::Rotation) => match rotation_code(value) {
            Some(code) => Ok(DeviceConfig { screen_dir: code, ..c }),
            None => Err(HubError::InvalidValue),
        },
        Some(ConfigField::SwitchMode) => match bounded_value(value, 65535) {
            Some(v) => Ok(DeviceConfig { image_switch_mode: v as u16, ..c }),
            None => Err(HubError::InvalidValue),
        },
        Some(f) => match bounded_value(value, 255) {
            None => Err(HubError::InvalidValue),
            Some(v) => match f {
                ConfigField::Brightness => if v > 30 {
                    Err(HubError::ValueOutOfRange)
                } else {
                    Ok(DeviceConfig { screen_brightness: v as u8, ..c })
                },
                ConfigField::MemoryPage => Ok(DeviceConfig { memory_page: v as u8, ..c }),
                ConfigField::Interval => Ok(DeviceConfig { image_switch_interval: v as u8, ..c }),
                ConfigField::Random => Ok(DeviceConfig { image_switch_random: v as u8, ..c }),
                ConfigField::Crop => Ok(DeviceConfig { album_cut_black: v as u8, ..c }),
                ConfigField::ScreenOnOffByUsb => Ok(
                    DeviceConfig { screen_onoff_by_usb: v as u8, ..c },
                ),
                ConfigField::ShakeSens => Ok(DeviceConfig { fun_shake_sens: v as u8, ..c }),
                ConfigField::PowerStyle => Ok(DeviceConfig { power_style: v as u8, ..c }),
                _ => Ok(DeviceConfig { srgb_style: v as u8, ..c }),
            },
        },
    }
}

/// Whether two strings hold the same characters.
pub fn str_equals(a: &str, b: &str) -> (r: bool)
    ensures
        r == (a@ == b@),
{
    let n = a.unicode_len();
    if n != b.unicode_len() {
        return false;
    }
    let mut i: usize = 0;
    while i < n
        invariant
            n == a@.len(),
            n == b@.len(),
            i <= n,
            forall|k: int| 0 <= k < i ==> a@[k] == b@[k],
        decreases n - i,
    {
        if a.get_char(i) != b.get_char(i) {
            return false;
        }
        i = i + 1;
    }
    assert(a@ =~= b@);
    true
}

/// Reads an optional `+` followed by decimal digits, where the number is at
/// most `max`.
pub fn parse_bounded(s: &str, max: u32) -> (r: Option<u32>)
    requires
        max <= 65535,
    ensures
        r matches Some(v) ==> bounded_value(s@, max as nat) == Some(v as nat),
        r is None ==> bounded_value(s@, max as nat) is None,
{
    let n = s.unicode_len();
    let mut start: usize = 0;
    if n > 0 && s.get_char(0) == '+' {
        start = 1;
    }
    let ghost d = s@.subrange(start as int, n as int);
    proof {
        if start == 1 {
            assert(d =~= s@.drop_first());
        } else {
            assert(d =~= s@);
        }
    }
    if start == n {
        return None;
    }
    let cap = max + 1;
    let mut acc: u32 = 0;
    let mut i: usize = start;
    while i < n
        invariant
            n == s@.len(),
            start <= i <= n,
            d == s@.subrange(start as int, n as int),
            d == unsigned_part(s@),
            cap == max + 1,
            max <= 65535,
            forall|k: int| start <= k < i ==> is_digit(#[trigger] s@[k]),
            acc == (if digits_value(s@.subrange(start as int, i as int)) < cap {
                digits_value(s@.subrange(start as int, i as int))
            } else {
                cap as nat
            }),
        decreases n - i,
    {
        let c = s.get_char(i);
        if !('0' <= c && c <= '9') {
            assert(d[i - start] == s@[i as int]);
            assert(!is_digit(d[i - start]));
            assert(!all_digits(d));
            return None;
        }
        let dv = (c as u32) - ('0' as u32);
        let ghost prefix = s@.subrange(start as int, i as int);
        let ghost next = s@.subrange(start as int, i + 1);
        assert(next.drop_last() =~= prefix);
        let ghost v = digits_value(prefix);
        assert(digits_value(next) == v * 10 + dv);
        if acc < cap {
            let t = acc * 10 + dv;
            acc = if t < cap {
                t
            } else {
                cap
            };
        } else {
            assert(v * 10 + dv >= cap) by (nonlinear_arith)
                requires
                    v >= cap,
            ;
        }
        i = i + 1;
    }
    assert(s@.subrange(start as int, n as int) == d);
    assert forall|k: int| 0 <= k < d.len() implies is_digit(#[trigger] d[k]) by {
        assert(d[k] == s@[start + k]);
    }
    assert(all_digits(d));
    if acc < cap {
        Some(acc)
    } else {
        None
    }
}

impl ConfigField {
    /// The setting a name (or its long alias) stands for.
    pub fn from_name(name: &str) -> (r: Option<ConfigField>)
        ensures
            r == field_named(name@),
    {
        if str_equals(name, "brightness") || str_equals(name, "screen_brightness") {
            Some(ConfigField::Brightness)
        } else if str_equals(name, "rotation") || str_equals(name, "screen_dir") {
            Some(ConfigField::Rotation)
        } else if str_equals(name, "page") || str_equals(name, "memory_page") {
            Some(ConfigField::MemoryPage)
        } else if str_equals(name, "interval") || str_equals(name, "image_switch_interval") {
            Some(ConfigField::Interval)
        } else if str_equals(name, "random") || str_equals(name, "image_switch_random") {
            Some(ConfigField::Random)
        } else if str_equals(name, "crop") || str_equals(name, "album_cut_black") {
            Some(ConfigField::Crop)
        } else if str_equals(name, "screen_onoff_by_usb") {
            Some(ConfigField::ScreenOnOffByUsb)
        } else if str_equals(name, "shake_sens") || str_equals(name, "fun_shake_sens") {
            Some(ConfigField::ShakeSens)
        } else if str_equals(name, "power_style") {
            Some(ConfigField::PowerStyle)
        } else if str_equals(name, "srgb_style") {
            Some(ConfigField::SrgbStyle)
        } else if str_equals(name, "switch_mode") || str_equals(name, "image_switch_mode") {
            Some(ConfigField::SwitchMode)
        } else {
            None
        }
    }
}

/// The device code for a rotation given in degrees.
pub fn rotation_code_of(value: &str) -> (r: Option<u8>)
    ensures
        r == rotation_code(value@),
{
    if str_equals(value, "0") {
        Some(0)
    } else if str_equals(value, "180") {
        Some(1)
    } else if str_equals(value, "90") {
        Some(2)
    } else if str_equals(value, "270") {
        Some(3)
    } else {
        None
    }
}

impl DeviceConfig {
    /// Reads the settings from the first 24 bytes of `data`; fails when
    /// `data` is shorter.
    pub fn from_bytes(data: &[u8]) -> (r: Result<DeviceConfig, HubError>)
        ensures
            data@.len() < 24 ==> r == Err::<DeviceConfig, HubError>(HubError::ConfigTooShort),
            data@.len() >= 24 ==> r == Ok::<DeviceConfig, HubError>(config_from_bytes(data@)),
    {
        if data.len() < CONFIG_SIZE {
            return Err(HubError::ConfigTooShort);
        }
        Ok(DeviceConfig {
            cur_lang: data[0],
            web_help_onoff: data[1],
            memory_page: data[2],
            screen_dir: data[3],
            screen_brightness: data[4],
            album_cut_black: data[5],
            album_cut_frame: data[6],
            fun_single_click: data[7],
            fun_double_click: data[8],
            fun_tilt: data[9],
            fun_shake: data[10],
            fun_shake_sens: data[11],
            screen_onoff_by_usb: data[12],
            reserve1: data[13],
            reserve2: data[14],
            reserve3: data[15],
            reserve4: data[16],
            reserve5: data[17],
            power_style: data[18],
            image_switch_random: data[19],
            image_switch_mode: read_u16_le(data, 20),
            image_switch_interval: data[22],
            srgb_style: data[23],
        })
    }

    /// The 24-byte record.
    pub fn to_bytes(&self) -> (r: [u8; 24])
        ensures
            r@ == config_bytes(*self),
    {
        let mut b = [0u8; 24];
        b[0] = self.cur_lang;
        b[1] = self.web_help_onoff;
        b[2] = self.memory_page;
        b[3] = self.screen_dir;
        b[4] = self.screen_brightness;
        b[5] = self.album_cut_black;
        b[6] = self.album_cut_frame;
        b[7] = self.fun_single_click;
        b[8] = self.fun_double_click;
        b[9] = self.fun_tilt;
        b[10] = self.fun_shake;
        b[11] = self.fun_shake_sens;
        b[12] = self.screen_onoff_by_usb;
        b[13] = self.reserve1;
        b[14] = self.reserve2;
        b[15] = self.reserve3;
        b[16] = self.reserve4;
        b[17] = self.reserve5;
        b[18] = self.power_style;
        b[19] = self.image_switch_random;
        b[20] = (self.image_switch_mode & 0xff) as u8;
        b[21] = ((self.image_switch_mode >> 8u16) & 0xff) as u8;
        b[22] = self.image_switch_interval;
        b[23] = self.srgb_style;
        assert(b@ =~= config_bytes(*self));
        b
    }

    /// Sets the field called `name` from the text `value`. Brightness takes
    /// 0 to 30, rotation one of 0, 90, 180 and 270 degrees, switch mode a
    /// 16-bit number and every other field an 8-bit number. On failure the
    /// settings are left as they were.
    pub fn set_field(&mut self, name: &str, value: &str) -> (r: Result<(), HubError>)
        ensures
            r is Ok <==> spec_set_field(*old(self), name@, value@) is Ok,
            r is Ok ==> *final(self) == spec_set_field(*old(self), name@, value@)->Ok_0,
            r matches Err(e) ==> spec_set_field(*old(self), name@, value@) == Err::<
                DeviceConfig,
                HubError,
            >(e) && *final(self) == *old(self),
    {
        let field = match ConfigField::from_name(name) {
            Some(f) => f,
            None => {
                return Err(HubError::UnknownField);
            },
        };
        match field {
            ConfigField::Rotation => {
                match rotation_code_of(value) {
                    Some(code) => {
                        self.screen_dir = code;
                        Ok(())
                    },
                    None => Err(HubError::InvalidValue),
                }
            },
            ConfigField::SwitchMode => {
                match parse_bounded(value, 65535) {
                    Some(v) => {
                        self.image_switch_mode = v as u16;
                        Ok(())
                    },
                    None => Err(HubError::InvalidValue),
                }
            },
            _ => {
                let v = match parse_bounded(value, 255) {
                    Some(v) => v as u8,
                    None => {
                        return Err(HubError::InvalidValue);
                    },
                };
                match field {
                    ConfigField::Brightness => {
                        if v > MAX_BRIGHTNESS {
                            return Err(HubError::ValueOutOfRange);
                        }
                        self.screen_brightness = v;
                    },
                    ConfigField::MemoryPage => {
                        self.memory_page = v;
                    },
                    ConfigField::Interval => {
                        self.image_switch_interval = v;
                    },
                    ConfigField::Random => {
                        self.image_switch_random = v;
                    },
                    ConfigField::Crop => {
                        self.album_cut_black = v;
                    },
                    ConfigField::ScreenOnOffByUsb => {
                        self.screen_onoff_by_usb = v;
                    },
                    ConfigField::ShakeSens => {
                        self.fun_shake_sens = v;
                    },
                    ConfigField::PowerStyle => {
                        self.power_style = v;
                    },
                    _ => {
                        self.srgb_style = v;
                    },
                }
                Ok(())
            },
        }
    }

    /// The screen rotation in degrees, if the stored code is a known one.
    pub fn rotation_degrees(&self) -> (r: Option<u16>)
        ensures
            r == rotation_degrees_of(self.screen_dir),
    {
        match self.screen_dir {
            0 => Some(0),
            1 => Some(180),
            2 => Some(90),
            3 => Some(270),
            _ => None,
        }
    }
}

/// Reading a written record gives back the same settings, and writing read
/// settings gives back the same 24 bytes, reserved bytes included.
pub proof fn lemma_config_round_trip(c: DeviceConfig, d: Seq<u8>)
    requires
        d.len() >= 24,
    ensures
        config_from_bytes(config_bytes(c)) == c,
        config_bytes(config_from_bytes(d)) == d.subrange(0, 24),
{
    let b = config_bytes(c);
    assert(b.subrange(20, 22) =~= le16_bytes(c.image_switch_mode));
    lemma_le16_read_write(c.image_switch_mode, b, 20);
    lemma_le16_write_read(d, 20);
    assert(config_bytes(config_from_bytes(d)) =~= d.subrange(0, 24));
}

/// The setters' rules: a brightness above 30 is refused, a rotation is
/// accepted only as 0, 90, 180 or 270 degrees and stored as code 0, 2, 1 or 3,
/// and a name that is no field's is refused.
pub proof fn lemma_config_setters(c: DeviceConfig, name: Seq<char>, value: Seq<char>)
    ensures
        (decimal_value(value) matches Some(n) && n > 30) ==> spec_set_field(
            c,
            "brightness"@,
            value,
        ) is Err,
        spec_set_field(c, "rotation"@, value) is Ok <==> (value == "0"@ || value == "90"@
            || value == "180"@ || value == "270"@),
        value == "0"@ ==> spec_set_field(c, "rotation"@, value) == Ok::<DeviceConfig, HubError>(
            DeviceConfig { screen_dir: 0, ..c },
        ),
        value == "90"@ ==> spec_set_field(c, "rotation"@, value) == Ok::<DeviceConfig, HubError>(
            DeviceConfig { screen_dir: 2, ..c },
        ),
        value == "180"@ ==> spec_set_field(c, "rotation"@, value) == Ok::<
            DeviceConfig,
            HubError,
        >(DeviceConfig { screen_dir: 1, ..c }),
        value == "270"@ ==> spec_set_field(c, "rotation"@, value) == Ok::<
            DeviceConfig,
            HubError,
        >(DeviceConfig { screen_dir: 3, ..c }),
        field_named(name) is None ==> spec_set_field(c, name, value) == Err::<
            DeviceConfig,
            HubError,
        >(HubError::UnknownField),
{
    reveal_strlit("brightness");
    reveal_strlit("screen_brightness");
    reveal_strlit("rotation");
    reveal_strlit("0");
    reveal_strlit("90");
    reveal_strlit("180");
    reveal_strlit("270");
    assert(field_named("brightness"@) == Some(ConfigField::Brightness));
    assert("rotation"@.len() != "brightness"@.len());
    assert("rotation"@.len() != "screen_brightness"@.len());
    assert(field_named("rotation"@) == Some(ConfigField::Rotation));
    assert("90"@.len() != "0"@.len());
    assert("90"@.len() != "180"@.len());
    assert("270"@.len() != "0"@.len());
    assert("270"@[0] != "180"@[0]);
    assert("270"@.len() != "90"@.len());
}

} // verus!
