//! The persisted settings: `key=value` text lines.
//!
//! Recognized keys are `hotkey`, `fast_mode`, `target_cps`, `left_click`,
//! `middle_click`, `right_click` and `play_sound`.  Unknown keys are
//! ignored; a malformed value falls back to the documented default for that
//! key alone; later lines override earlier ones.
use vstd::prelude::*;
use crate::bytes::{
    bytes_eq, copy_range, find_byte, find_byte_in, push_bytes, split_lines, split_lines_vec,
    strip_cr, trim, trim_vec, views_of,
};
use crate::num::{bool_bytes, bool_to_bytes, cps_bytes, cps_to_bytes, parse_bool, parse_bool_spec,
    parse_cps, parse_cps_spec};

verus! {

/// The settings as loaded from and saved to their text form.  The hotkey is
/// kept as the raw name written in the file; the target rate is held in
/// thousandths of clicks per second.
pub struct Config {
    pub hotkey: Vec<u8>,
    pub fast_mode: bool,
    pub target_cps_milli: u64,
    pub left_click: bool,
    pub middle_click: bool,
    pub right_click: bool,
    pub play_sound: bool,
}

#[verifier::ext_equal]
pub ghost struct ConfigV {
    pub hotkey: Seq<u8>,
    pub fast_mode: bool,
    pub target_cps_milli: u64,
    pub left_click: bool,
    pub middle_click: bool,
    pub right_click: bool,
    pub play_sound: bool,
}

impl View for Config {
    type V = ConfigV;

    open spec fn view(&self) -> ConfigV {
        ConfigV {
            hotkey: self.hotkey@,
            fast_mode: self.fast_mode,
            target_cps_milli: self.target_cps_milli,
            left_click: self.left_click,
            middle_click: self.middle_click,
            right_click: self.right_click,
            play_sound: self.play_sound,
        }
    }
}

pub open spec fn name_hotkey() -> Seq<u8> {
    seq![104u8, 111u8, 116u8, 107u8, 101u8, 121u8]  // "hotkey"
}

pub open spec fn name_fast_mode() -> Seq<u8> {
    seq![102u8, 97u8, 115u8, 116u8, 95u8, 109u8, 111u8, 100u8, 101u8]  // "fast_mode"
}

pub open spec fn name_target_cps() -> Seq<u8> {
    seq![116u8, 97u8, 114u8, 103u8, 101u8, 116u8, 95u8, 99u8, 112u8, 115u8]  // "target_cps"
}

pub open spec fn name_left_click() -> Seq<u8> {
    seq![108u8, 101u8, 102u8, 116u8, 95u8, 99u8, 108u8, 105u8, 99u8, 107u8]  // "left_click"
}

pub open spec fn name_middle_click() -> Seq<u8> {
    seq![109u8, 105u8, 100u8, 100u8, 108u8, 101u8, 95u8, 99u8, 108u8, 105u8, 99u8, 107u8]  // "middle_click"
}

pub open spec fn name_right_click() -> Seq<u8> {
    seq![114u8, 105u8, 103u8, 104u8, 116u8, 95u8, 99u8, 108u8, 105u8, 99u8, 107u8]  // "right_click"
}

pub open spec fn name_play_sound() -> Seq<u8> {
    seq![112u8, 108u8, 97u8, 121u8, 95u8, 115u8, 111u8, 117u8, 110u8, 100u8]  // "play_sound"
}

/// "Insert", the default hotkey name.
pub open spec fn default_hotkey() -> Seq<u8> {
    seq![73u8, 110u8, 115u8, 101u8, 114u8, 116u8]
}

pub open spec fn default_config() -> ConfigV {
    ConfigV {
        hotkey: default_hotkey(),
        fast_mode: true,
        target_cps_milli: 10_000,
        left_click: true,
        middle_click: false,
        right_click: false,
        play_sound: false,
    }
}

impl Default for Config {
    /// The documented defaults, used when the settings file is missing.
    fn default() -> (c: Config)
        ensures
            c@ == default_config(),
    {
        let mut hk: Vec<u8> = Vec::new();
        let name: [u8; 6] = [73, 110, 115, 101, 114, 116];
        push_bytes(&mut hk, name.as_slice());
        proof {
            assert(hk@ =~= default_hotkey());
        }
        let c = Config {
            hotkey: hk,
            fast_mode: true,
            target_cps_milli: 10_000,
            left_click: true,
            middle_click: false,
            right_click: false,
            play_sound: false,
        };
        proof {
            assert(c@ =~= default_config());
        }
        c
    }
}

/// A line split at its first `=`: the trimmed key and the trimmed value.
/// A line without `=` carries nothing.
pub open spec fn spec_parse_line(line: Seq<u8>) -> Option<(Seq<u8>, Seq<u8>)> {
    match find_byte(line, 61) {
        None => None,
        Some(i) => Some((trim(line.take(i)), trim(line.skip(i + 1)))),
    }
}

/// One line applied to the settings: a recognized key replaces its field,
/// a malformed value replaces it with that field's default, anything else
/// leaves the settings as they were.
pub open spec fn spec_apply_line(c: ConfigV, line: Seq<u8>) -> ConfigV {
    match spec_parse_line(line) {
        None => c,
        Some((k, v)) => if k == name_hotkey() {
            ConfigV { hotkey: v, ..c }
        } else if k == name_fast_mode() {
            ConfigV {
                fast_mode: match parse_bool_spec(v) {
                    Some(b) => b,
                    None => true,
                },
                ..c
            }
        } else if k == name_target_cps() {
            ConfigV {
                target_cps_milli: match parse_cps_spec(v) {
                    Some(m) => m,
                    None => 10_000,
                },
                ..c
            }
        } else if k == name_left_click() {
            ConfigV {
                left_click: match parse_bool_spec(v) {
                    Some(b) => b,
                    None => true,
                },
                ..c
            }
        } else if k == name_middle_click() {
            ConfigV {
                middle_click: match parse_bool_spec(v) {
                    Some(b) => b,
                    None => false,
                },
                ..c
            }
        } else if k == name_right_click() {
            ConfigV {
                right_click: match parse_bool_spec(v) {
                    Some(b) => b,
                    None => false,
                },
                ..c
            }
        } else if k == name_play_sound() {
            ConfigV {
                play_sound: match parse_bool_spec(v) {
                    Some(b) => b,
                    None => false,
                },
                ..c
            }
        } else {
            c
        },
    }
}

pub open spec fn spec_parse_lines(ls: Seq<Seq<u8>>, c: ConfigV) -> ConfigV
    decreases ls.len(),
{
    if ls.len() == 0 {
        c
    } else {
        spec_parse_lines(ls.drop_first(), spec_apply_line(c, ls[0]))
    }
}

/// What loading a settings buffer yields.
pub open spec fn spec_parse(d: Seq<u8>) -> ConfigV {
    spec_parse_lines(split_lines(d), default_config())
}

fn parse_line(line: &[u8]) -> (r: Option<(Vec<u8>, Vec<u8>)>)
    ensures
        match r {
            Some(kv) => spec_parse_line(line@) == Some((kv.0@, kv.1@)),
            None => spec_parse_line(line@) is None,
        },
{
    match find_byte_in(line, 61) {
        None => None,
        Some(i) => {
            let n = line.len();
            let k = trim_vec(copy_range(line, 0, i));
            let v = trim_vec(copy_range(line, i + 1, n));
            proof {
                assert(line@.subrange(0, i as int) =~= line@.take(i as int));
                assert(line@.subrange(i + 1, line@.len() as int) =~= line@.skip(i + 1));
            }
            Some((k, v))
        },
    }
}

fn apply_line(c: &mut Config, line: &[u8])
    ensures
        final(c)@ == spec_apply_line(old(c)@, line@),
{
    let kv = match parse_line(line) {
        None => {
            return ;
        },
        Some(kv) => kv,
    };
    let (k, v) = kv;
    let n_hotkey: [u8; 6] = [104, 111, 116, 107, 101, 121];
    let n_fast_mode: [u8; 9] = [102, 97, 115, 116, 95, 109, 111, 100, 101];
    let n_target_cps: [u8; 10] = [116, 97, 114, 103, 101, 116, 95, 99, 112, 115];
    let n_left_click: [u8; 10] = [108, 101, 102, 116, 95, 99, 108, 105, 99, 107];
    let n_middle_click: [u8; 12] = [109, 105, 100, 100, 108, 101, 95, 99, 108, 105, 99, 107];
    let n_right_click: [u8; 11] = [114, 105, 103, 104, 116, 95, 99, 108, 105, 99, 107];
    let n_play_sound: [u8; 10] = [112, 108, 97, 121, 95, 115, 111, 117, 110, 100];
    proof {
        assert(n_hotkey@ =~= name_hotkey());
        assert(n_fast_mode@ =~= name_fast_mode());
        assert(n_target_cps@ =~= name_target_cps());
        assert(n_left_click@ =~= name_left_click());
        assert(n_middle_click@ =~= name_middle_click());
        assert(n_right_click@ =~= name_right_click());
        assert(n_play_sound@ =~= name_play_sound());
    }
    if bytes_eq(k.as_slice(), n_hotkey.as_slice()) {
        c.hotkey = v;
    } else if bytes_eq(k.as_slice(), n_fast_mode.as_slice()) {
        c.fast_mode = match parse_bool(v.as_slice()) {
            Some(b) => b,
            None => true,
        };
    } else if bytes_eq(k.as_slice(), n_target_cps.as_slice()) {
        c.target_cps_milli = match parse_cps(v.as_slice()) {
            Some(m) => m,
            None => 10_000,
        };
    } else if bytes_eq(k.as_slice(), n_left_click.as_slice()) {
        c.left_click = match parse_bool(v.as_slice()) {
            Some(b) => b,
            None => true,
        };
    } else if bytes_eq(k.as_slice(), n_middle_click.as_slice()) {
        c.middle_click = match parse_bool(v.as_slice()) {
            Some(b) => b,
            None => false,
        };
    } else if bytes_eq(k.as_slice(), n_right_click.as_slice()) {
        c.right_click = match parse_bool(v.as_slice()) {
            Some(b) => b,
            None => false,
        };
    } else if bytes_eq(k.as_slice(), n_play_sound.as_slice()) {
        c.play_sound = match parse_bool(v.as_slice()) {
            Some(b) => b,
            None => false,
        };
    }
    proof {
        assert(c@ =~= spec_apply_line(old(c)@, line@));
    }
}

/// Loads settings from the text of a settings file.
pub fn parse_config(d: &[u8]) -> (c: Config)
    ensures
        c@ == spec_parse(d@),
{
    let lines = split_lines_vec(d);
    let mut c = Config::default();
    let mut i: usize = 0;
    while i < lines.len()
        invariant
            0 <= i <= lines@.len(),
            views_of(lines@) == split_lines(d@),
            c@ == spec_parse_lines(views_of(lines@).take(i as int), default_config()),
        decreases lines@.len() - i,
    {
        apply_line(&mut c, lines[i].as_slice());
        proof {
            let vs = views_of(lines@);
            assert(vs.take(i + 1) =~= vs.take(i as int).push(vs[i as int]));
            lemma_parse_lines_snoc(vs.take(i as int), vs[i as int], default_config());
        }
        i = i + 1;
    }
    proof {
        assert(views_of(lines@).take(i as int) =~= views_of(lines@));
    }
    c
}

proof fn lemma_parse_lines_snoc(ls: Seq<Seq<u8>>, l: Seq<u8>, c: ConfigV)
    ensures
        spec_parse_lines(ls.push(l), c) == spec_apply_line(spec_parse_lines(ls, c), l),
    decreases ls.len(),
{
    if ls.len() == 0 {
        assert(ls.push(l).len() == 1);
        assert(ls.push(l)[0] == l);
        let rest = ls.push(l).drop_first();
        assert(rest.len() == 0);
        assert(spec_parse_lines(rest, spec_apply_line(c, l)) == spec_apply_line(c, l));
        assert(spec_parse_lines(ls.push(l), c) == spec_parse_lines(rest, spec_apply_line(c, ls.push(l)[0])));
        assert(spec_parse_lines(ls, c) == c);
    } else {
        assert(ls.push(l).drop_first() =~= ls.drop_first().push(l));
        lemma_parse_lines_snoc(ls.drop_first(), l, spec_apply_line(c, ls[0]));
    }
}

/// One settings line before its newline: `key=value`.
pub open spec fn line_of(k: Seq<u8>, v: Seq<u8>) -> Seq<u8> {
    k + seq![61u8] + v
}

/// The seven line contents that saving writes, in their fixed order.
pub open spec fn saved_lines(c: ConfigV) -> Seq<Seq<u8>> {
    seq![
        line_of(name_hotkey(), c.hotkey),
        line_of(name_fast_mode(), bool_bytes(c.fast_mode)),
        line_of(name_target_cps(), cps_bytes(c.target_cps_milli as int)),
        line_of(name_left_click(), bool_bytes(c.left_click)),
        line_of(name_middle_click(), bool_bytes(c.middle_click)),
        line_of(name_right_click(), bool_bytes(c.right_click)),
        line_of(name_play_sound(), bool_bytes(c.play_sound)),
    ]
}

/// Lines joined back into a buffer, a newline after each.
pub open spec fn join_lines(ls: Seq<Seq<u8>>) -> Seq<u8>
    decreases ls.len(),
{
    if ls.len() == 0 {
        Seq::empty()
    } else {
        ls[0] + seq![10u8] + join_lines(ls.drop_first())
    }
}

/// What saving the settings writes: one line per field, in a fixed order.
pub open spec fn spec_save(c: ConfigV) -> Seq<u8> {
    join_lines(saved_lines(c))
}

/// Serializes the settings to the text written to the settings file.
fn push_line(out: &mut Vec<u8>, name: &[u8], value: &[u8])
    ensures
        final(out)@ == old(out)@ + (name@ + seq![61u8] + value@) + seq![10u8],
{
    push_bytes(out, name);
    out.push(61);
    push_bytes(out, value);
    out.push(10);
    proof {
        assert(out@ =~= old(out)@ + (name@ + seq![61u8] + value@) + seq![10u8]);
    }
}

/// Serializes the settings to the text written to the settings file.
#[verifier::rlimit(100)]
pub fn save_config(c: &Config) -> (out: Vec<u8>)
    ensures
        out@ == spec_save(c@),
{
    let n_hotkey: [u8; 6] = [104, 111, 116, 107, 101, 121];
    let n_fast_mode: [u8; 9] = [102, 97, 115, 116, 95, 109, 111, 100, 101];
    let n_target_cps: [u8; 10] = [116, 97, 114, 103, 101, 116, 95, 99, 112, 115];
    let n_left_click: [u8; 10] = [108, 101, 102, 116, 95, 99, 108, 105, 99, 107];
    let n_middle_click: [u8; 12] = [109, 105, 100, 100, 108, 101, 95, 99, 108, 105, 99, 107];
    let n_right_click: [u8; 11] = [114, 105, 103, 104, 116, 95, 99, 108, 105, 99, 107];
    let n_play_sound: [u8; 10] = [112, 108, 97, 121, 95, 115, 111, 117, 110, 100];
    proof {
        assert(n_hotkey@ =~= name_hotkey());
        assert(n_fast_mode@ =~= name_fast_mode());
        assert(n_target_cps@ =~= name_target_cps());
        assert(n_left_click@ =~= name_left_click());
        assert(n_middle_click@ =~= name_middle_click());
        assert(n_right_click@ =~= name_right_click());
        assert(n_play_sound@ =~= name_play_sound());
    }
    let mut out: Vec<u8> = Vec::new();
    push_line(&mut out, n_hotkey.as_slice(), c.hotkey.as_slice());
    let b = bool_to_bytes(c.fast_mode);
    push_line(&mut out, n_fast_mode.as_slice(), b.as_slice());
    let r = cps_to_bytes(c.target_cps_milli);
    push_line(&mut out, n_target_cps.as_slice(), r.as_slice());
    let b = bool_to_bytes(c.left_click);
    push_line(&mut out, n_left_click.as_slice(), b.as_slice());
    let b = bool_to_bytes(c.middle_click);
    push_line(&mut out, n_middle_click.as_slice(), b.as_slice());
    let b = bool_to_bytes(c.right_click);
    push_line(&mut out, n_right_click.as_slice(), b.as_slice());
    let b = bool_to_bytes(c.play_sound);
    push_line(&mut out, n_play_sound.as_slice(), b.as_slice());
    proof {
        reveal_with_fuel(join_lines, 8);
        let ls = saved_lines(c@);
        assert(ls.drop_first() =~= saved_lines(c@).skip(1));
        assert(out@ =~= spec_save(c@));
    }
    out
}

pub ghost enum FieldId {
    Hotkey,
    FastMode,
    TargetCps,
    LeftClick,
    MiddleClick,
    RightClick,
    PlaySound,
}

pub ghost enum FieldVal {
    Text(Seq<u8>),
    Flag(bool),
    Rate(u64),
}

pub open spec fn field_of(c: ConfigV, f: FieldId) -> FieldVal {
    match f {
        FieldId::Hotkey => FieldVal::Text(c.hotkey),
        FieldId::FastMode => FieldVal::Flag(c.fast_mode),
        FieldId::TargetCps => FieldVal::Rate(c.target_cps_milli),
        FieldId::LeftClick => FieldVal::Flag(c.left_click),
        FieldId::MiddleClick => FieldVal::Flag(c.middle_click),
        FieldId::RightClick => FieldVal::Flag(c.right_click),
        FieldId::PlaySound => FieldVal::Flag(c.play_sound),
    }
}

pub open spec fn field_name(f: FieldId) -> Seq<u8> {
    match f {
        FieldId::Hotkey => name_hotkey(),
        FieldId::FastMode => name_fast_mode(),
        FieldId::TargetCps => name_target_cps(),
        FieldId::LeftClick => name_left_click(),
        FieldId::MiddleClick => name_middle_click(),
        FieldId::RightClick => name_right_click(),
        FieldId::PlaySound => name_play_sound(),
    }
}

/// What one line does to one field: nothing when the line does not name
/// it, else the value it sets — the field's own default when the value
/// text is malformed.
pub open spec fn line_effect(f: FieldId, line: Seq<u8>) -> Option<FieldVal> {
    match spec_parse_line(line) {
        None => None,
        Some((k, v)) => if k == field_name(f) {
            Some(
                match f {
                    FieldId::Hotkey => FieldVal::Text(v),
                    FieldId::FastMode => FieldVal::Flag(
                        match parse_bool_spec(v) {
                            Some(b) => b,
                            None => true,
                        },
                    ),
                    FieldId::TargetCps => FieldVal::Rate(
                        match parse_cps_spec(v) {
                            Some(m) => m,
                            None => 10_000,
                        },
                    ),
                    FieldId::LeftClick => FieldVal::Flag(
                        match parse_bool_spec(v) {
                            Some(b) => b,
                            None => true,
                        },
                    ),
                    FieldId::MiddleClick => FieldVal::Flag(
                        match parse_bool_spec(v) {
                            Some(b) => b,
                            None => false,
                        },
                    ),
                    FieldId::RightClick => FieldVal::Flag(
                        match parse_bool_spec(v) {
                            Some(b) => b,
                            None => false,
                        },
                    ),
                    FieldId::PlaySound => FieldVal::Flag(
                        match parse_bool_spec(v) {
                            Some(b) => b,
                            None => false,
                        },
                    ),
                },
            )
        } else {
            None
        },
    }
}

/// A line changes a field exactly as its effect on that field says, and
/// leaves every other field alone.
proof fn lemma_apply_line_effect(c: ConfigV, line: Seq<u8>, f: FieldId)
    ensures
        field_of(spec_apply_line(c, line), f) == (match line_effect(f, line) {
            None => field_of(c, f),
            Some(v) => v,
        }),
{
}

proof fn lemma_parse_lines_unset(ls: Seq<Seq<u8>>, c: ConfigV, f: FieldId)
    requires
        forall|i: int| 0 <= i < ls.len() ==> line_effect(f, #[trigger] ls[i]) is None,
    ensures
        field_of(spec_parse_lines(ls, c), f) == field_of(c, f),
    decreases ls.len(),
{
    if ls.len() > 0 {
        lemma_apply_line_effect(c, ls[0], f);
        assert(forall|i: int|
            0 <= i < ls.drop_first().len() ==> #[trigger] ls.drop_first()[i] == ls[i + 1]);
        lemma_parse_lines_unset(ls.drop_first(), spec_apply_line(c, ls[0]), f);
    }
}

proof fn lemma_parse_lines_last_wins(ls: Seq<Seq<u8>>, c: ConfigV, f: FieldId, i: int, v: FieldVal)
    requires
        0 <= i < ls.len(),
        line_effect(f, ls[i]) == Some(v),
        forall|j: int| i < j < ls.len() ==> line_effect(f, #[trigger] ls[j]) is None,
    ensures
        field_of(spec_parse_lines(ls, c), f) == v,
    decreases ls.len(),
{
    let c1 = spec_apply_line(c, ls[0]);
    assert(forall|j: int|
        0 <= j < ls.drop_first().len() ==> #[trigger] ls.drop_first()[j] == ls[j + 1]);
    if i == 0 {
        lemma_apply_line_effect(c, ls[0], f);
        lemma_parse_lines_unset(ls.drop_first(), c1, f);
    } else {
        lemma_parse_lines_last_wins(ls.drop_first(), c1, f, i - 1, v);
    }
}

/// A field that no line of the file names keeps its documented default,
/// whatever the other lines say.
pub proof fn lemma_load_missing_field_defaults(d: Seq<u8>, f: FieldId)
    requires
        forall|i: int|
            0 <= i < split_lines(d).len() ==> line_effect(f, #[trigger] split_lines(d)[i]) is None,
    ensures
        field_of(spec_parse(d), f) == field_of(default_config(), f),
{
    lemma_parse_lines_unset(split_lines(d), default_config(), f);
}

/// The last line that names a field decides it alone: loading substitutes
/// a malformed value's default, or keeps the parsed value, for exactly
/// that field.
pub proof fn lemma_load_last_line_wins(d: Seq<u8>, f: FieldId, i: int, v: FieldVal)
    requires
        0 <= i < split_lines(d).len(),
        line_effect(f, split_lines(d)[i]) == Some(v),
        forall|j: int|
            i < j < split_lines(d).len() ==> line_effect(f, #[trigger] split_lines(d)[j]) is None,
    ensures
        field_of(spec_parse(d), f) == v,
{
    lemma_parse_lines_last_wins(split_lines(d), default_config(), f, i, v);
}

/// Settings that saving writes losslessly: the hotkey text is its own
/// trim and free of newlines, and the target rate is positive.  Loading
/// only ever yields such settings.
pub open spec fn canonical(c: ConfigV) -> bool {
    trim(c.hotkey) == c.hotkey && (forall|j: int| 0 <= j < c.hotkey.len() ==> c.hotkey[j] != 10)
        && c.target_cps_milli >= 1
}

proof fn lemma_parse_lines_canonical(ls: Seq<Seq<u8>>, c: ConfigV)
    requires
        canonical(c),
        forall|i: int|
            0 <= i < ls.len() ==> (forall|j: int|
                0 <= j < #[trigger] ls[i].len() ==> ls[i][j] != 10),
    ensures
        canonical(spec_parse_lines(ls, c)),
    decreases ls.len(),
{
    if ls.len() > 0 {
        let line = ls[0];
        let c1 = spec_apply_line(c, line);
        assert(canonical(c1)) by {
            match spec_parse_line(line) {
                None => {},
                Some((k, v)) => {
                    assert(forall|j: int| 0 <= j < line.skip(1).len() ==> line.skip(1)[j] != 10);
                    let raw = line.skip(find_byte(line, 61).unwrap() + 1);
                    crate::bytes::lemma_find_byte(line, 61);
                    assert(forall|j: int| 0 <= j < raw.len() ==> raw[j] != 10);
                    crate::bytes::lemma_trim_no_byte(raw, 10);
                    crate::bytes::lemma_trim_idem(raw);
                },
            }
        }
        assert(forall|i: int|
            0 <= i < ls.drop_first().len() ==> #[trigger] ls.drop_first()[i] == ls[i + 1]);
        lemma_parse_lines_canonical(ls.drop_first(), c1);
    }
}

/// Whatever the file held, the loaded settings are canonical.
pub proof fn lemma_parse_canonical(d: Seq<u8>)
    ensures
        canonical(spec_parse(d)),
{
    crate::bytes::lemma_split_lines_no_nl(d);
    assert(canonical(default_config())) by {
        crate::bytes::lemma_trim_id(default_hotkey());
    }
    lemma_parse_lines_canonical(split_lines(d), default_config());
}

/// Splitting a saved line at its `=` recovers the key and the value.
proof fn lemma_parse_saved_line(k: Seq<u8>, v: Seq<u8>)
    requires
        trim(k) == k,
        trim(v) == v,
        forall|j: int| 0 <= j < k.len() ==> k[j] != 61,
    ensures
        spec_parse_line(k + seq![61u8] + v) == Some((k, v)),
{
    let s = k + seq![61u8] + v;
    assert(s[k.len() as int] == 61);
    assert(forall|j: int| 0 <= j < k.len() ==> s[j] == k[j]);
    crate::bytes::lemma_find_byte_at(s, 61, k.len() as int);
    assert(s.take(k.len() as int) =~= k);
    assert(s.skip(k.len() + 1 as int) =~= v);
}

/// A line as the splitter hands it back unchanged: no newline inside and
/// no trailing carriage return.
pub open spec fn crisp_line(l: Seq<u8>) -> bool {
    (forall|j: int| 0 <= j < l.len() ==> l[j] != 10) && strip_cr(l) == l
}

/// Splitting undoes joining, line by line.
proof fn lemma_split_of_join(ls: Seq<Seq<u8>>)
    requires
        forall|i: int| 0 <= i < ls.len() ==> crisp_line(#[trigger] ls[i]),
    ensures
        split_lines(join_lines(ls)) == ls,
    decreases ls.len(),
{
    if ls.len() == 0 {
    } else {
        assert(crisp_line(ls[0]));
        crate::bytes::lemma_split_lines_concat(ls[0], join_lines(ls.drop_first()));
        assert(forall|i: int|
            0 <= i < ls.drop_first().len() ==> #[trigger] ls.drop_first()[i] == ls[i + 1]);
        lemma_split_of_join(ls.drop_first());
        assert(split_lines(join_lines(ls)) =~= ls);
    }
}

/// The saved text splits back into exactly the seven written lines.
#[verifier::rlimit(100)]
proof fn lemma_save_split(c: ConfigV)
    requires
        canonical(c),
    ensures
        split_lines(spec_save(c)) == saved_lines(c),
{
    let l1 = name_hotkey() + seq![61u8] + c.hotkey;
    let l2 = name_fast_mode() + seq![61u8] + bool_bytes(c.fast_mode);
    let l3 = name_target_cps() + seq![61u8] + cps_bytes(c.target_cps_milli as int);
    let l4 = name_left_click() + seq![61u8] + bool_bytes(c.left_click);
    let l5 = name_middle_click() + seq![61u8] + bool_bytes(c.middle_click);
    let l6 = name_right_click() + seq![61u8] + bool_bytes(c.right_click);
    let l7 = name_play_sound() + seq![61u8] + bool_bytes(c.play_sound);
    crate::num::lemma_cps_bytes_chars(c.target_cps_milli as int);
    if c.hotkey.len() > 0 {
        crate::bytes::lemma_trim_fixpoint_ends(c.hotkey);
    }
    assert(crisp_line(l1) && crisp_line(l2) && crisp_line(l3) && crisp_line(l4) && crisp_line(l5)
        && crisp_line(l6) && crisp_line(l7));
    let ls = saved_lines(c);
    assert forall|i: int| 0 <= i < ls.len() implies crisp_line(#[trigger] ls[i]) by {
        if i == 0 {
            assert(ls[i] == l1);
        } else if i == 1 {
            assert(ls[i] == l2);
        } else if i == 2 {
            assert(ls[i] == l3);
        } else if i == 3 {
            assert(ls[i] == l4);
        } else if i == 4 {
            assert(ls[i] == l5);
        } else if i == 5 {
            assert(ls[i] == l6);
        } else {
            assert(ls[i] == l7);
        }
    }
    lemma_split_of_join(ls);
}

/// Folding the seven written lines over the defaults restores the
/// settings they were written from.
#[verifier::rlimit(100)]
proof fn lemma_save_fold(c: ConfigV)
    requires
        canonical(c),
    ensures
        spec_parse_lines(saved_lines(c), default_config()) == c,
{
    let l1 = name_hotkey() + seq![61u8] + c.hotkey;
    let l2 = name_fast_mode() + seq![61u8] + bool_bytes(c.fast_mode);
    let l3 = name_target_cps() + seq![61u8] + cps_bytes(c.target_cps_milli as int);
    let l4 = name_left_click() + seq![61u8] + bool_bytes(c.left_click);
    let l5 = name_middle_click() + seq![61u8] + bool_bytes(c.middle_click);
    let l6 = name_right_click() + seq![61u8] + bool_bytes(c.right_click);
    let l7 = name_play_sound() + seq![61u8] + bool_bytes(c.play_sound);
    crate::num::lemma_cps_bytes_chars(c.target_cps_milli as int);
    assert(trim(name_hotkey()) == name_hotkey() && trim(name_fast_mode()) == name_fast_mode()
        && trim(name_target_cps()) == name_target_cps() && trim(name_left_click())
        == name_left_click() && trim(name_middle_click()) == name_middle_click() && trim(
        name_right_click(),
    ) == name_right_click() && trim(name_play_sound()) == name_play_sound()) by {
        crate::bytes::lemma_trim_id(name_hotkey());
        crate::bytes::lemma_trim_id(name_fast_mode());
        crate::bytes::lemma_trim_id(name_target_cps());
        crate::bytes::lemma_trim_id(name_left_click());
        crate::bytes::lemma_trim_id(name_middle_click());
        crate::bytes::lemma_trim_id(name_right_click());
        crate::bytes::lemma_trim_id(name_play_sound());
    }
    assert(trim(bool_bytes(true)) == bool_bytes(true)) by {
        crate::bytes::lemma_trim_id(bool_bytes(true));
    }
    assert(trim(bool_bytes(false)) == bool_bytes(false)) by {
        crate::bytes::lemma_trim_id(bool_bytes(false));
    }
    assert(trim(cps_bytes(c.target_cps_milli as int)) == cps_bytes(c.target_cps_milli as int)) by {
        crate::bytes::lemma_trim_id(cps_bytes(c.target_cps_milli as int));
    }
    lemma_parse_saved_line(name_hotkey(), c.hotkey);
    lemma_parse_saved_line(name_fast_mode(), bool_bytes(c.fast_mode));
    lemma_parse_saved_line(name_target_cps(), cps_bytes(c.target_cps_milli as int));
    lemma_parse_saved_line(name_left_click(), bool_bytes(c.left_click));
    lemma_parse_saved_line(name_middle_click(), bool_bytes(c.middle_click));
    lemma_parse_saved_line(name_right_click(), bool_bytes(c.right_click));
    lemma_parse_saved_line(name_play_sound(), bool_bytes(c.play_sound));
    crate::num::lemma_parse_cps_of_bytes(c.target_cps_milli);
    let c0 = default_config();
    let c1 = spec_apply_line(c0, l1);
    let c2 = spec_apply_line(c1, l2);
    let c3 = spec_apply_line(c2, l3);
    let c4 = spec_apply_line(c3, l4);
    let c5 = spec_apply_line(c4, l5);
    let c6 = spec_apply_line(c5, l6);
    let c7 = spec_apply_line(c6, l7);
    assert(c1 == (ConfigV { hotkey: c.hotkey, ..c0 }));
    assert(c2 == (ConfigV { fast_mode: c.fast_mode, ..c1 }));
    assert(c3 == (ConfigV { target_cps_milli: c.target_cps_milli, ..c2 }));
    assert(c4 == (ConfigV { left_click: c.left_click, ..c3 }));
    assert(c5 == (ConfigV { middle_click: c.middle_click, ..c4 }));
    assert(c6 == (ConfigV { right_click: c.right_click, ..c5 }));
    assert(c7 == (ConfigV { play_sound: c.play_sound, ..c6 }));
    let ls = saved_lines(c);
    let s6 = seq![l2, l3, l4, l5, l6, l7];
    let s5 = seq![l3, l4, l5, l6, l7];
    let s4 = seq![l4, l5, l6, l7];
    let s3 = seq![l5, l6, l7];
    let s2 = seq![l6, l7];
    let s1 = seq![l7];
    assert(ls.drop_first() =~= s6);
    assert(s6.drop_first() =~= s5);
    assert(s5.drop_first() =~= s4);
    assert(s4.drop_first() =~= s3);
    assert(s3.drop_first() =~= s2);
    assert(s2.drop_first() =~= s1);
    assert(s1.drop_first() =~= Seq::<Seq<u8>>::empty());
    assert(ls[0] == l1);
    assert(spec_parse_lines(ls, c0) == spec_parse_lines(s6, c1));
    assert(spec_parse_lines(s6, c1) == spec_parse_lines(s5, c2));
    assert(spec_parse_lines(s5, c2) == spec_parse_lines(s4, c3));
    assert(spec_parse_lines(s4, c3) == spec_parse_lines(s3, c4));
    assert(spec_parse_lines(s3, c4) == spec_parse_lines(s2, c5));
    assert(spec_parse_lines(s2, c5) == spec_parse_lines(s1, c6));
    assert(spec_parse_lines(s1, c6) == spec_parse_lines(Seq::<Seq<u8>>::empty(), c7));
    assert(spec_parse_lines(Seq::<Seq<u8>>::empty(), c7) == c7);
    assert(c7 =~= c);
}

/// Saving canonical settings and loading them back yields them unchanged.
pub proof fn lemma_load_of_save(c: ConfigV)
    requires
        canonical(c),
    ensures
        spec_parse(spec_save(c)) == c,
{
    lemma_save_split(c);
    lemma_save_fold(c);
}

/// Saving, loading the saved text, and saving again writes byte-identical
/// text: serialization is idempotent.
pub proof fn lemma_save_load_idempotent(d: Seq<u8>)
    ensures
        spec_save(spec_parse(spec_save(spec_parse(d)))) == spec_save(spec_parse(d)),
{
    lemma_parse_canonical(d);
    lemma_load_of_save(spec_parse(d));
}

} // verus!
