//! What travels between the editor and the game: the effect forms, the captured calls, the rule
//! categories and the keys that rules are matched by.
use crate::float::{FloatBits, ONE_BITS};
use crate::text::{hexadecimal_text, signed_text};
use vstd::prelude::*;
use vstd::utf8::encode_utf8;

verus! {

// ── Effect forms ─────────────────────────────────────────────────────────────

#[derive(Clone, Copy, Debug, PartialEq, Eq, Structural)]
pub struct Point3D {
    pub x: FloatBits,
    pub y: FloatBits,
    pub z: FloatBits,
}

#[derive(Clone, Copy, Debug, PartialEq, Eq, Structural)]
pub struct Color {
    pub red: FloatBits,
    pub green: FloatBits,
    pub blue: FloatBits,
    pub alpha: FloatBits,
}

#[derive(Clone, Copy, Debug, PartialEq, Eq, Structural)]
pub struct Rainbow {
    pub color: Color,
    pub movement_state: FloatBits,
}

/// The origin.
pub open spec fn origin() -> Point3D {
    Point3D { x: FloatBits(0), y: FloatBits(0), z: FloatBits(0) }
}

/// Every channel at 1: as a multiplier, no change.
pub open spec fn white() -> Color {
    Color {
        red: FloatBits(ONE_BITS),
        green: FloatBits(ONE_BITS),
        blue: FloatBits(ONE_BITS),
        alpha: FloatBits(ONE_BITS),
    }
}

/// No tint.
pub open spec fn no_tint() -> Rainbow {
    Rainbow { color: white(), movement_state: FloatBits(0) }
}

impl Default for Point3D {
    fn default() -> (point: Self)
        ensures
            point == origin(),
    {
        Point3D { x: FloatBits(0), y: FloatBits(0), z: FloatBits(0) }
    }
}

impl Default for Color {
    fn default() -> (color: Self)
        ensures
            color == white(),
    {
        Color {
            red: FloatBits(ONE_BITS),
            green: FloatBits(ONE_BITS),
            blue: FloatBits(ONE_BITS),
            alpha: FloatBits(ONE_BITS),
        }
    }
}

impl Default for Rainbow {
    fn default() -> (rainbow: Self)
        ensures
            rainbow == no_tint(),
    {
        Rainbow { color: Color::default(), movement_state: FloatBits(0) }
    }
}

/// One live effect kind as the game reports it. `rainbow.color` and `speed` are multipliers.
#[derive(Debug)]
pub struct RpmEffectData {
    pub index: u32,
    pub effect_name: String,
    pub bone_name: String,
    pub is_follow: bool,
    pub visible: bool,
    pub scale: FloatBits,
    pub frame: FloatBits,
    pub pos: Point3D,
    pub rot: Point3D,
    pub speed: FloatBits,
    pub rainbow: Rainbow,
}

impl Clone for RpmEffectData {
    fn clone(&self) -> (copy: Self)
        ensures
            copy == *self,
    {
        RpmEffectData {
            index: self.index,
            effect_name: self.effect_name.clone(),
            bone_name: self.bone_name.clone(),
            is_follow: self.is_follow,
            visible: self.visible,
            scale: self.scale,
            frame: self.frame,
            pos: self.pos,
            rot: self.rot,
            speed: self.speed,
            rainbow: self.rainbow,
        }
    }
}

impl Default for RpmEffectData {
    fn default() -> (data: Self)
        ensures
            data.index == 0,
            data.effect_name@ == "0x0"@,
            data.bone_name@ == "0x0"@,
            !data.is_follow,
            data.visible,
            data.scale == FloatBits(ONE_BITS),
            data.frame == FloatBits(0),
            data.pos == origin(),
            data.rot == origin(),
            data.speed == FloatBits(ONE_BITS),
            data.rainbow == no_tint(),
    {
        RpmEffectData {
            index: 0,
            effect_name: "0x0".to_owned(),
            bone_name: "0x0".to_owned(),
            is_follow: false,
            visible: true,
            scale: FloatBits(ONE_BITS),
            frame: FloatBits(0),
            pos: Point3D::default(),
            rot: Point3D::default(),
            speed: FloatBits(ONE_BITS),
            rainbow: Rainbow::default(),
        }
    }
}

/// The overrides that are active in the game for one kind: a field that is set is pinned.
#[derive(Clone, Copy, Debug, PartialEq, Eq)]
pub struct PinsWire {
    pub scale: Option<FloatBits>,
    pub rate: Option<FloatBits>,
    pub pos: Option<Point3D>,
    pub rot: Option<Point3D>,
    pub visible: Option<bool>,
    pub frame: Option<FloatBits>,
    pub color: Option<Color>,
    pub movement_state: Option<FloatBits>,
}

impl Default for PinsWire {
    fn default() -> (pins: Self)
        ensures
            !pins.pins_anything(),
    {
        PinsWire {
            scale: None,
            rate: None,
            pos: None,
            rot: None,
            visible: None,
            frame: None,
            color: None,
            movement_state: None,
        }
    }
}

impl PinsWire {
    /// Some field is pinned.
    pub open spec fn pins_anything(&self) -> bool {
        ||| self.scale is Some
        ||| self.rate is Some
        ||| self.pos is Some
        ||| self.rot is Some
        ||| self.visible is Some
        ||| self.frame is Some
        ||| self.color is Some
        ||| self.movement_state is Some
    }

    /// Whether some field is pinned.
    pub fn any(&self) -> (b: bool)
        ensures
            b == self.pins_anything(),
    {
        self.scale.is_some() || self.rate.is_some() || self.pos.is_some() || self.rot.is_some()
            || self.visible.is_some() || self.frame.is_some() || self.color.is_some()
            || self.movement_state.is_some()
    }
}

/// One effect kind that the game has reported in this connection.
#[derive(Debug)]
pub struct LiveKind {
    pub name: String,
    /// The latest values.
    pub data: RpmEffectData,
    /// The values reported first: the baseline that edits are computed against.
    pub first: RpmEffectData,
    /// What is pinned in the game, where the game says so.
    pub pins: Option<PinsWire>,
    pub updates: u64,
    /// When the last report came, in nanoseconds of the caller's clock.
    pub last_update: u64,
}

impl Clone for LiveKind {
    fn clone(&self) -> (copy: Self)
        ensures
            copy == *self,
    {
        LiveKind {
            name: self.name.clone(),
            data: self.data.clone(),
            first: self.first.clone(),
            pins: self.pins,
            updates: self.updates,
            last_update: self.last_update,
        }
    }
}

// ── Transplants and asset bundles ────────────────────────────────────────────

/// A copied or replaced effect kind, and the kind that it spawns as.
#[derive(Clone, Debug, PartialEq, Eq)]
pub struct EffectAliasWire {
    pub from: u64,
    pub to: u64,
    /// The costume slots the alias applies to; none means all.
    pub slots: Vec<u8>,
}

/// The donor effect files that load together with a target's effects.
#[derive(Clone, Debug, PartialEq, Eq)]
pub struct DonorEffWire {
    pub target: String,
    pub donors: Vec<String>,
}

/// A donor effect file's payload, as base64 text or as a file on the SD card.
#[derive(Clone, Debug, PartialEq, Eq)]
pub struct DonorBytesWire {
    pub path: String,
    pub b64: String,
    pub file: String,
}

/// One file of an asset bundle.
#[derive(Clone, Debug, PartialEq, Eq)]
pub struct AssetBundleFileWire {
    pub path: String,
    pub file: String,
    pub size: u64,
}

/// A full replacement of the files that the asset carrier serves.
#[derive(Clone, Debug, PartialEq, Eq)]
pub struct AssetBundleWire {
    pub generation: u64,
    pub target: String,
    pub files: Vec<AssetBundleFileWire>,
}

// ── Captured calls ───────────────────────────────────────────────────────────

/// One typed argument of a captured call.
#[derive(Clone, Copy, Debug, PartialEq, Eq, Structural)]
pub enum LuaArgWire {
    Hash(u64),
    Num(FloatBits),
    Int(i64),
    Bool(bool),
    Nil,
}

/// Both arguments have the same type and value.
pub open spec fn same_arg(a: LuaArgWire, b: LuaArgWire) -> bool {
    match (a, b) {
        (LuaArgWire::Num(x), LuaArgWire::Num(y)) => x.same_number(y),
        (LuaArgWire::Num(x), _) => false,
        (_, LuaArgWire::Num(y)) => false,
        _ => a == b,
    }
}

impl LuaArgWire {
    /// The argument as an integer, where it is a number or a truth value.
    pub fn as_i64(&self) -> (n: Option<i64>)
        ensures
            match *self {
                LuaArgWire::Int(i) => n == Some(i),
                LuaArgWire::Num(x) => n is Some && n.unwrap() == x.to_integer(),
                LuaArgWire::Bool(b) => n == Some(if b { 1i64 } else { 0i64 }),
                _ => n is None,
            },
    {
        match *self {
            LuaArgWire::Int(i) => Some(i),
            LuaArgWire::Num(x) => Some(x.truncated()),
            LuaArgWire::Bool(b) => Some(if b {
                1
            } else {
                0
            }),
            _ => None,
        }
    }

    /// The argument as a truth value. An integer is one only as 0 or 1.
    pub fn as_bool(&self) -> (b: Option<bool>)
        ensures
            match *self {
                LuaArgWire::Bool(v) => b == Some(v),
                LuaArgWire::Int(i) => b == (if i == 0 {
                    Some(false)
                } else if i == 1 {
                    Some(true)
                } else {
                    None::<bool>
                }),
                _ => b is None,
            },
    {
        match *self {
            LuaArgWire::Bool(b) => Some(b),
            LuaArgWire::Int(0) => Some(false),
            LuaArgWire::Int(1) => Some(true),
            _ => None,
        }
    }

    /// The argument as a hash, which can arrive under the tag of an integer.
    pub fn as_hash(&self) -> (h: Option<u64>)
        ensures
            match *self {
                LuaArgWire::Hash(v) => h == Some(v),
                LuaArgWire::Int(i) => h == Some(i as u64),
                _ => h is None,
            },
    {
        match *self {
            LuaArgWire::Hash(h) => Some(h),
            LuaArgWire::Int(i) => Some(i as u64),
            _ => None,
        }
    }

    /// The argument as source text; there is none for `Nil`. `number` is the text of the number
    /// where the argument is one.
    pub fn to_source_arg(&self, number: &str) -> (text: Option<String>)
        ensures
            crate::events::optional_text(text) == source_arg(*self, number@),
    {
        match *self {
            LuaArgWire::Hash(h) => {
                let mut text = "Hash40::new_raw(0x".to_owned();
                text.append(hexadecimal_text(h).as_str());
                text.append(")");
                Some(text)
            },
            LuaArgWire::Num(_) => Some(number.to_owned()),
            LuaArgWire::Int(i) => Some(signed_text(i)),
            LuaArgWire::Bool(b) => Some(
                if b {
                    "true".to_owned()
                } else {
                    "false".to_owned()
                },
            ),
            LuaArgWire::Nil => None,
        }
    }

    /// Whether both arguments have the same type and value.
    pub fn equals(&self, other: &LuaArgWire) -> (b: bool)
        ensures
            b == same_arg(*self, *other),
    {
        match (*self, *other) {
            (LuaArgWire::Num(x), LuaArgWire::Num(y)) => x.equals(y),
            (LuaArgWire::Hash(x), LuaArgWire::Hash(y)) => x == y,
            (LuaArgWire::Int(x), LuaArgWire::Int(y)) => x == y,
            (LuaArgWire::Bool(x), LuaArgWire::Bool(y)) => x == y,
            (LuaArgWire::Nil, LuaArgWire::Nil) => true,
            _ => false,
        }
    }
}

/// One captured script call.
#[derive(Debug)]
pub struct CaptureLine {
    /// The fighter kind of the performer.
    pub kind: i32,
    /// The hash of the motion's name.
    pub motion: u64,
    /// The motion frame at the time of the call.
    pub frame: FloatBits,
    pub func: String,
    pub args: Vec<LuaArgWire>,
    /// The playback of the motion that produced the line.
    pub run: u32,
    /// The call came from the common agent and is no part of the move.
    pub common: bool,
}

/// What a captured call says.
pub struct CaptureView {
    pub kind: i32,
    pub motion: u64,
    pub frame: FloatBits,
    pub func: Seq<char>,
    pub args: Seq<LuaArgWire>,
    pub run: u32,
    pub common: bool,
}

impl View for CaptureLine {
    type V = CaptureView;

    open spec fn view(&self) -> CaptureView {
        CaptureView {
            kind: self.kind,
            motion: self.motion,
            frame: self.frame,
            func: self.func@,
            args: self.args@,
            run: self.run,
            common: self.common,
        }
    }
}

impl Clone for CaptureLine {
    fn clone(&self) -> (copy: Self)
        ensures
            copy@ == self@,
    {
        let mut args: Vec<LuaArgWire> = Vec::new();
        let mut i: usize = 0;
        while i < self.args.len()
            invariant
                i <= self.args@.len(),
                args@ == self.args@.take(i as int),
            decreases self.args@.len() - i,
        {
            args.push(self.args[i]);
            i += 1;
        }
        assert(args@ =~= self.args@);
        CaptureLine {
            kind: self.kind,
            motion: self.motion,
            frame: self.frame,
            func: self.func.clone(),
            args,
            run: self.run,
            common: self.common,
        }
    }
}

/// The two argument lists agree, one by one.
pub open spec fn same_args(a: Seq<LuaArgWire>, b: Seq<LuaArgWire>) -> bool {
    a.len() == b.len() && forall|i: int| 0 <= i < a.len() ==> same_arg(#[trigger] a[i], b[i])
}

/// Both lines are the same script line, at the resolution the editor shows: within one run, with
/// frames compared as they are displayed.
pub open spec fn same_line(a: CaptureView, b: CaptureView) -> bool {
    &&& a.run == b.run
    &&& a.kind == b.kind
    &&& a.motion == b.motion
    &&& a.func == b.func
    &&& a.frame.shown_frame() == b.frame.shown_frame()
    &&& same_args(a.args, b.args)
}

/// Whether both lines are the same script line.
pub fn same_capture(a: &CaptureLine, b: &CaptureLine) -> (same: bool)
    ensures
        same == same_line(a@, b@),
{
    if a.run != b.run || a.kind != b.kind || a.motion != b.motion || a.func != b.func
        || a.frame.displayed() != b.frame.displayed() || a.args.len() != b.args.len() {
        return false;
    }
    let mut i: usize = 0;
    while i < a.args.len()
        invariant
            i <= a.args@.len(),
            a.args@.len() == b.args@.len(),
            forall|j: int| 0 <= j < i ==> same_arg(#[trigger] a.args@[j], b.args@[j]),
        decreases a.args@.len() - i,
    {
        if !a.args[i].equals(&b.args[i]) {
            return false;
        }
        i += 1;
    }
    true
}

/// How the captures of one fighter kind and motion have gone so far.
#[derive(Clone, Copy, Debug, PartialEq, Eq, Structural)]
pub struct CaptureDebugSnapshot {
    pub kind: i32,
    pub motion: u64,
    pub attempted: u64,
    pub succeeded: u64,
    pub contention: u64,
    pub claim_conflicts: u64,
    pub duplicates: u64,
    pub last_frame: FloatBits,
}

impl CaptureDebugSnapshot {
    /// The attempts that failed.
    pub fn failed(self) -> (n: u64)
        requires
            self.contention + self.claim_conflicts <= u64::MAX,
        ensures
            n == self.contention + self.claim_conflicts,
    {
        self.contention + self.claim_conflicts
    }
}

// ── Rule categories ──────────────────────────────────────────────────────────

/// The category of rules on hurtbox status.
pub const CAT_HURT: u8 = 3;

/// The category of rules on `ATTACK_ABS`; the editor counts it differently.
pub const CAT_ABS: u8 = 4;

/// The category of rules on `SEARCH`.
pub const CAT_SEARCH: u8 = 7;

/// The category of rules on `ATTACK_FP`.
pub const CAT_ATTACK_FP: u8 = 12;

/// The category of rules on `ATK_POWER`.
pub const CAT_ATK_POWER: u8 = 5;

/// The category of rules on `ATK_SET_SHIELD_SETOFF_MUL`.
pub const CAT_ATK_SETOFF_MUL: u8 = 6;

/// The category of rules on sounds.
pub const CAT_SOUND: u8 = 8;

/// The category of rules on `MOTION_RATE`.
pub const CAT_MOTION_RATE: u8 = 9;

/// The category of rules on `EXPRESSION`.
pub const CAT_EXPRESSION: u8 = 10;

/// The category of rules on `REVERSE_LR`.
pub const CAT_REVERSE_LR: u8 = 11;

/// The category of rules on `SPEED_EX`.
pub const CAT_SPEED_EX: u8 = 13;

/// The category of rules on `SPEED`.
pub const CAT_SPEED: u8 = 16;

/// The category of rules on `ADD_SPEED_NO_LIMIT`.
pub const CAT_ADD_SPEED_NO_LIMIT: u8 = 14;

/// The category of rules on `CORRECT`.
pub const CAT_CORRECT: u8 = 15;

/// The category of rules on `FT_CATCH_STOP`.
pub const CAT_FT_CATCH_STOP: u8 = 17;

/// The category of rules on `FT_START_ADJUST_MOTION_FRAME`.
pub const CAT_FT_START_ADJUST_MOTION_FRAME: u8 = 18;

/// The category of rules on `CLR_SPEED`.
pub const CAT_CLR_SPEED: u8 = 19;

/// The category of rules on `SET_AIR`.
pub const CAT_SET_AIR: u8 = 20;

/// The category of rules on `CHANGE_KINETIC`.
pub const CAT_CHANGE_KINETIC: u8 = 21;

/// The category of rules on `KINETIC_ADD_SPEED`.
pub const CAT_KINETIC_ADD_SPEED: u8 = 22;

/// The category of rules on `KINETIC_SUSPEND_ENERGY`.
pub const CAT_KINETIC_SUSPEND_ENERGY: u8 = 23;

/// The category of rules on `KINETIC_RESUME_ENERGY`.
pub const CAT_KINETIC_RESUME_ENERGY: u8 = 24;

/// The category of rules on `KINETIC_ENABLE_ENERGY`.
pub const CAT_KINETIC_ENABLE_ENERGY: u8 = 25;

/// The category of rules on `KINETIC_UNABLE_ENERGY`.
pub const CAT_KINETIC_UNABLE_ENERGY: u8 = 26;

/// The category of rules on `KINETIC_CLEAR_SPEED_ALL`.
pub const CAT_KINETIC_CLEAR_SPEED_ALL: u8 = 27;

/// The category of rules on `KINETIC_SET_CONSIDER_GROUND_FRICTION`.
pub const CAT_KINETIC_SET_CONSIDER_GROUND_FRICTION: u8 = 28;

/// The category of rules on `MOTION_MODULE_SET_RATE`.
pub const CAT_MOTION_MODULE_SET_RATE: u8 = 29;

/// The category of rules on `MOTION_MODULE_SET_HELPER_CALCULATION`.
pub const CAT_MOTION_MODULE_SET_HELPER_CALCULATION: u8 = 30;

/// The category of rules on `MOTION_MODULE_SET_RATE_PARTIAL`.
pub const CAT_MOTION_MODULE_SET_RATE_PARTIAL: u8 = 31;

/// The category of rules on `WORK_FLAG`.
pub const CAT_WORK_FLAG: u8 = 32;

/// The category of rules on `WORK_TRANSITION_TERM`.
pub const CAT_WORK_TRANSITION_TERM: u8 = 33;

/// The category of rules on `WORK_MODULE_SET`.
pub const CAT_WORK_MODULE_SET: u8 = 34;

/// The category of rules on `WORK_MODULE_INC_INT`.
pub const CAT_WORK_MODULE_INC_INT: u8 = 35;

/// The category of rules on `MOTION_MODULE_SET_FRAME_PARTIAL`.
pub const CAT_MOTION_MODULE_SET_FRAME_PARTIAL: u8 = 36;

/// The numbers under which the editor knows the collision categories that the game numbers
/// differently. Attacks, grabs and wind are 0, 1 and 2 for both.
#[derive(Clone, Copy, Debug, PartialEq, Eq, Structural)]
pub struct DisplayCategories {
    pub abs: u8,
    pub search: u8,
    pub attack_fp: u8,
}

/// The game's number for a category of the editor.
pub open spec fn category_on_wire(display: u8, editor: DisplayCategories) -> u8 {
    if display == editor.abs {
        CAT_ABS
    } else if display == editor.search {
        CAT_SEARCH
    } else if display == editor.attack_fp {
        CAT_ATTACK_FP
    } else {
        display
    }
}

/// The game's number for a category of the editor.
pub fn wire_category(display: u8, editor: &DisplayCategories) -> (category: u8)
    ensures
        category == category_on_wire(display, *editor),
{
    if display == editor.abs {
        CAT_ABS
    } else if display == editor.search {
        CAT_SEARCH
    } else if display == editor.attack_fp {
        CAT_ATTACK_FP
    } else {
        display
    }
}

/// No collision goes out under the category of hurtboxes, as long as the editor numbers its own
/// categories without that one or as `ATTACK_ABS`.
pub proof fn law_collisions_never_reach_hurtboxes(display: u8, editor: DisplayCategories)
    requires
        display == editor.abs || display == editor.search || display == editor.attack_fp || display
            < CAT_HURT,
    ensures
        category_on_wire(display, editor) != CAT_HURT,
{
}

/// What a post-hoc modifier changes about an attack.
#[derive(Clone, Copy, Debug, PartialEq, Eq, Structural)]
pub enum AttackModKind {
    Power,
    ShieldSetoffMul,
}

/// The category of the rules on a modifier.
pub fn attack_mod_category(kind: AttackModKind) -> (category: u8)
    ensures
        category == match kind {
            AttackModKind::Power => CAT_ATK_POWER,
            AttackModKind::ShieldSetoffMul => CAT_ATK_SETOFF_MUL,
        },
{
    match kind {
        AttackModKind::Power => CAT_ATK_POWER,
        AttackModKind::ShieldSetoffMul => CAT_ATK_SETOFF_MUL,
    }
}

/// Whether a field that defaults to 0 can be left out.
pub fn is_zero_u8(v: &u8) -> (b: bool)
    ensures
        b == (*v == 0),
{
    *v == 0
}

// ── Rule keys ────────────────────────────────────────────────────────────────

/// The key of a rule on the fighter-wide collision priority.
pub const HURT_KEY_COL_PRI: u64 = 0xffff_ffff_ffff_ffff;

/// The key of a rule on the whole-body hit status.
pub const HURT_KEY_WHOLE: u64 = 0xffff_ffff_ffff_fffe;

/// The key of a rule on the fighter-wide damage reaction.
pub const HURT_KEY_DAMAGE_REACTION: u64 = 0xffff_ffff_ffff_fffc;

/// The key of a rule on the targetless `SET_AIR` point.
pub const KINETIC_KEY_SET_AIR: u64 = 0xffff_ffff_ffff_fffd;

/// The key of a rule on the targetless point that clears all speed.
pub const KINETIC_KEY_CLEAR_SPEED_ALL: u64 = 0xffff_ffff_ffff_fffc;

/// Where a key starts.
pub const KEY_START: u64 = 0xcbf2_9ce4_8422_2325;

/// What a key is multiplied by for each byte.
pub const KEY_FACTOR: u64 = 0x1000_0000_01b3;

/// A key with one more byte mixed in.
pub open spec fn key_step(key: u64, byte: u8) -> u64 {
    (((key ^ (byte as u64)) * KEY_FACTOR) % 0x1_0000_0000_0000_0000) as u64
}

/// The key of a text of bytes.
pub open spec fn key_of(bytes: Seq<u8>) -> u64
    decreases bytes.len(),
{
    if bytes.len() == 0 {
        KEY_START
    } else {
        key_step(key_of(bytes.drop_last()), bytes.last())
    }
}

/// The `n` lowest bytes of `value`, the lowest first.
pub open spec fn low_bytes(value: nat, n: nat) -> Seq<u8>
    decreases n,
{
    if n == 0 {
        Seq::empty()
    } else {
        seq![(value % 256) as u8] + low_bytes(value / 256, (n - 1) as nat)
    }
}

/// The word that stands for an argument in a key: its type in the top bits, mixed with its value.
pub open spec fn arg_word(arg: LuaArgWire) -> u64 {
    match arg {
        LuaArgWire::Hash(h) => 0x1000_0000_0000_0000u64 ^ h,
        LuaArgWire::Num(x) => 0x2000_0000_0000_0000u64 ^ (x.0 as u64),
        LuaArgWire::Int(i) => 0x3000_0000_0000_0000u64 ^ (i as u64),
        LuaArgWire::Bool(b) => 0x4000_0000_0000_0000u64 ^ (if b { 1u64 } else { 0u64 }),
        LuaArgWire::Nil => 0x5000_0000_0000_0000u64,
    }
}

/// The words of the arguments, as bytes.
pub open spec fn arg_bytes(args: Seq<LuaArgWire>) -> Seq<u8>
    decreases args.len(),
{
    if args.len() == 0 {
        Seq::empty()
    } else {
        arg_bytes(args.drop_last()) + low_bytes(arg_word(args.last()) as nat, 8)
    }
}

/// The bit patterns of the numbers, as bytes.
pub open spec fn number_bytes(args: Seq<FloatBits>) -> Seq<u8>
    decreases args.len(),
{
    if args.len() == 0 {
        Seq::empty()
    } else {
        number_bytes(args.drop_last()) + low_bytes(args.last().0 as nat, 4)
    }
}

/// The integers, as bytes in two's complement.
pub open spec fn integer_bytes(args: Seq<i64>) -> Seq<u8>
    decreases args.len(),
{
    if args.len() == 0 {
        Seq::empty()
    } else {
        integer_bytes(args.drop_last()) + low_bytes((args.last() as u64) as nat, 8)
    }
}

fn mix(key: u64, byte: u8) -> (next: u64)
    ensures
        next == key_step(key, byte),
{
    (key ^ (byte as u64)).wrapping_mul(KEY_FACTOR)
}

/// Mixes the `n` lowest bytes of `value` into the key of `before`.
fn mix_word(key: u64, value: u64, n: usize, Ghost(before): Ghost<Seq<u8>>) -> (next: u64)
    requires
        key == key_of(before),
    ensures
        next == key_of(before + low_bytes(value as nat, n as nat)),
{
    let mut key: u64 = key;
    let mut rest: u64 = value;
    let mut k: usize = 0;
    let ghost mut seen = before;
    proof {
        assert(before + low_bytes(value as nat, n as nat) =~= seen + low_bytes(
            rest as nat,
            n as nat,
        ));
    }
    while k < n
        invariant
            k <= n,
            key == key_of(seen),
            before + low_bytes(value as nat, n as nat) == seen + low_bytes(
                rest as nat,
                (n - k) as nat,
            ),
        decreases n - k,
    {
        let byte: u8 = (rest % 256) as u8;
        key = mix(key, byte);
        proof {
            let next = seen.push(byte);
            assert(next.drop_last() =~= seen);
            assert(seen + (seq![byte] + low_bytes((rest / 256) as nat, (n - k - 1) as nat)) =~= next
                + low_bytes((rest / 256) as nat, (n - k - 1) as nat));
            seen = next;
        }
        rest = rest / 256;
        k += 1;
    }
    assert(seen + low_bytes(rest as nat, 0) =~= seen);
    key
}

/// Mixes a name into a fresh key.
fn mix_name(func: &str) -> (key: u64)
    ensures
        key == key_of(encode_utf8(func@)),
{
    let bytes = func.as_bytes();
    let mut key: u64 = KEY_START;
    let mut i: usize = 0;
    while i < bytes.len()
        invariant
            i <= bytes@.len(),
            key == key_of(bytes@.take(i as int)),
        decreases bytes@.len() - i,
    {
        key = mix(key, bytes[i]);
        assert(bytes@.take(i + 1).drop_last() =~= bytes@.take(i as int));
        i += 1;
    }
    assert(bytes@.take(bytes@.len() as int) =~= bytes@);
    key
}

/// The key of one captured expression call: its name and every argument.
pub fn expression_key(func: &str, args: &[LuaArgWire]) -> (key: u64)
    ensures
        key == key_of(encode_utf8(func@) + arg_bytes(args@)),
{
    let ghost name = encode_utf8(func@);
    let mut key: u64 = mix_name(func);
    let mut i: usize = 0;
    assert(name + arg_bytes(args@.take(0)) =~= name);
    while i < args.len()
        invariant
            i <= args@.len(),
            key == key_of(name + arg_bytes(args@.take(i as int))),
        decreases args@.len() - i,
    {
        let word: u64 = match args[i] {
            LuaArgWire::Hash(h) => 0x1000_0000_0000_0000 ^ h,
            LuaArgWire::Num(x) => 0x2000_0000_0000_0000 ^ (x.0 as u64),
            LuaArgWire::Int(n) => 0x3000_0000_0000_0000 ^ (n as u64),
            LuaArgWire::Bool(b) => 0x4000_0000_0000_0000 ^ (if b {
                1u64
            } else {
                0u64
            }),
            LuaArgWire::Nil => 0x5000_0000_0000_0000,
        };
        let ghost before = name + arg_bytes(args@.take(i as int));
        key = mix_word(key, word, 8, Ghost(before));
        proof {
            assert(args@.take(i + 1).drop_last() =~= args@.take(i as int));
            assert(before + low_bytes(word as nat, 8) =~= name + arg_bytes(args@.take(i + 1)));
        }
        i += 1;
    }
    assert(args@.take(args@.len() as int) =~= args@);
    key
}

/// The key of a point call whose arguments are numbers.
pub fn numeric_point_key(func: &str, args: &[FloatBits]) -> (key: u64)
    ensures
        key == key_of(encode_utf8(func@) + number_bytes(args@)),
{
    let ghost name = encode_utf8(func@);
    let mut key: u64 = mix_name(func);
    let mut i: usize = 0;
    assert(name + number_bytes(args@.take(0)) =~= name);
    while i < args.len()
        invariant
            i <= args@.len(),
            key == key_of(name + number_bytes(args@.take(i as int))),
        decreases args@.len() - i,
    {
        let ghost before = name + number_bytes(args@.take(i as int));
        let word: u64 = args[i].0 as u64;
        key = mix_word(key, word, 4, Ghost(before));
        proof {
            assert(args@.take(i + 1).drop_last() =~= args@.take(i as int));
            assert(before + low_bytes(word as nat, 4) =~= name + number_bytes(args@.take(i + 1)));
        }
        i += 1;
    }
    assert(args@.take(args@.len() as int) =~= args@);
    key
}

/// The key of a point call whose arguments are exact integers.
pub fn integer_point_key(func: &str, args: &[i64]) -> (key: u64)
    ensures
        key == key_of(encode_utf8(func@) + integer_bytes(args@)),
{
    let ghost name = encode_utf8(func@);
    let mut key: u64 = mix_name(func);
    let mut i: usize = 0;
    assert(name + integer_bytes(args@.take(0)) =~= name);
    while i < args.len()
        invariant
            i <= args@.len(),
            key == key_of(name + integer_bytes(args@.take(i as int))),
        decreases args@.len() - i,
    {
        let ghost before = name + integer_bytes(args@.take(i as int));
        let word: u64 = args[i] as u64;
        key = mix_word(key, word, 8, Ghost(before));
        proof {
            assert(args@.take(i + 1).drop_last() =~= args@.take(i as int));
            assert(before + low_bytes(word as nat, 8) =~= name + integer_bytes(args@.take(i + 1)));
        }
        i += 1;
    }
    assert(args@.take(args@.len() as int) =~= args@);
    key
}

// ── Laws ─────────────────────────────────────────────────────────────────────

/// Multiplying by a number with an inverse modulo `size` loses nothing.
proof fn lemma_undone(a: int, b: int, factor: int, inverse: int, over: int, size: int)
    requires
        size > 0,
        -size < a - b < size,
        factor * inverse == 1 + over * size,
        (a * factor) % size == (b * factor) % size,
    ensures
        a == b,
{
    let gap = a - b;
    let laps = (a * factor) / size - (b * factor) / size;
    vstd::arithmetic::div_mod::lemma_fundamental_div_mod(a * factor, size);
    vstd::arithmetic::div_mod::lemma_fundamental_div_mod(b * factor, size);
    assert(gap * factor == a * factor - b * factor) by (nonlinear_arith)
        requires
            gap == a - b,
    ;
    let (u, v) = ((a * factor) / size, (b * factor) / size);
    assert(size * u - size * v == size * laps) by (nonlinear_arith)
        requires
            laps == u - v,
    ;
    assert(gap * factor == size * laps);
    assert((gap * factor) * inverse == gap * (factor * inverse)) by (nonlinear_arith);
    assert(gap * (1 + over * size) == gap + (gap * over) * size) by (nonlinear_arith);
    assert((size * laps) * inverse == (laps * inverse) * size) by (nonlinear_arith);
    let times = laps * inverse - gap * over;
    assert((laps * inverse) * size - (gap * over) * size == times * size) by (nonlinear_arith)
        requires
            times == laps * inverse - gap * over,
    ;
    assert(gap == times * size);
    assert(gap == 0) by (nonlinear_arith)
        requires
            gap == times * size,
            -size < gap < size,
    ;
}

/// Multiplying by the factor of keys loses nothing.
proof fn lemma_factor(a: u64, b: u64)
    requires
        (a * KEY_FACTOR) % 0x1_0000_0000_0000_0000 == (b * KEY_FACTOR) % 0x1_0000_0000_0000_0000,
    ensures
        a == b,
{
    lemma_undone(
        a as int,
        b as int,
        KEY_FACTOR as int,
        0xb46d_d957_aff6_957b,
        0xb46_dd95_7c32,
        0x1_0000_0000_0000_0000,
    );
}

/// A step tells keys apart, and bytes.
proof fn lemma_key_step(a: u64, b: u64, x: u8, y: u8)
    ensures
        a != b ==> key_step(a, x) != key_step(b, x),
        x != y ==> key_step(a, x) != key_step(a, y),
{
    let (v, w) = (x as u64, y as u64);
    if key_step(a, x) == key_step(b, x) {
        lemma_factor(a ^ v, b ^ v);
        assert(a ^ v == b ^ v ==> a == b) by (bit_vector);
    }
    if key_step(a, x) == key_step(a, y) {
        lemma_factor(a ^ v, a ^ w);
        assert(a ^ v == a ^ w ==> v == w) by (bit_vector);
    }
}

/// Changing a single byte of what a key is made of, be it in the name or in an argument, changes
/// the key.
pub proof fn law_one_byte_changes_the_key(bytes: Seq<u8>, i: int, byte: u8)
    requires
        0 <= i < bytes.len(),
        byte != bytes[i],
    ensures
        key_of(bytes.update(i, byte)) != key_of(bytes),
    decreases bytes.len(),
{
    let other = bytes.update(i, byte);
    let (head, end) = (bytes.drop_last(), bytes.last());
    if i == bytes.len() - 1 {
        assert(other.drop_last() =~= head);
        lemma_key_step(key_of(head), key_of(head), byte, end);
    } else {
        law_one_byte_changes_the_key(head, i, byte);
        assert(other.drop_last() =~= head.update(i, byte));
        lemma_key_step(key_of(other.drop_last()), key_of(head), end, end);
    }
}

/// The integers have eight bytes each.
proof fn lemma_integer_bytes(args: Seq<i64>)
    ensures
        integer_bytes(args).len() == 8 * args.len(),
    decreases args.len(),
{
    if args.len() > 0 {
        lemma_integer_bytes(args.drop_last());
        lemma_low_bytes((args.last() as u64) as nat, 8);
    }
}

proof fn lemma_low_bytes(value: nat, n: nat)
    ensures
        low_bytes(value, n).len() == n,
    decreases n,
{
    if n > 0 {
        lemma_low_bytes(value / 256, (n - 1) as nat);
    }
}

/// Two calls of one point on integers that differ in a single byte have different keys.
pub proof fn law_integer_keys_tell_bytes_apart(func: Seq<char>, a: Seq<i64>, b: Seq<i64>, i: int)
    requires
        a.len() == b.len(),
        0 <= i < 8 * a.len(),
        integer_bytes(a)[i] != integer_bytes(b)[i],
        forall|j: int|
            0 <= j < 8 * a.len() && j != i ==> #[trigger] integer_bytes(a)[j] == integer_bytes(b)[j],
    ensures
        key_of(encode_utf8(func) + integer_bytes(a)) != key_of(
            encode_utf8(func) + integer_bytes(b),
        ),
{
    let name = encode_utf8(func);
    let (x, y) = (integer_bytes(a), integer_bytes(b));
    lemma_integer_bytes(a);
    lemma_integer_bytes(b);
    let at = name.len() + i;
    law_one_byte_changes_the_key(name + x, at, y[i]);
    assert((name + x).update(at, y[i]) =~= name + y);
}

/// The number that bytes stand for, the lowest first.
pub open spec fn bytes_value(bytes: Seq<u8>) -> nat
    decreases bytes.len(),
{
    if bytes.len() == 0 {
        0
    } else {
        bytes[0] as nat + 256 * bytes_value(bytes.skip(1))
    }
}

/// The size of a word of so many bytes.
pub open spec fn word_size(n: nat) -> nat
    decreases n,
{
    if n == 0 {
        1
    } else {
        256 * word_size((n - 1) as nat)
    }
}

/// The bytes of a number that fits stand for it.
pub proof fn law_bytes_stand_for_the_number(value: nat, n: nat)
    requires
        value < word_size(n),
    ensures
        low_bytes(value, n).len() == n,
        bytes_value(low_bytes(value, n)) == value,
    decreases n,
{
    if n > 0 {
        let rest = (n - 1) as nat;
        assert(value / 256 < word_size(rest));
        law_bytes_stand_for_the_number(value / 256, rest);
        let all = low_bytes(value, n);
        assert(all.skip(1) =~= low_bytes(value / 256, rest));
        assert(all[0] == (value % 256) as u8);
    }
}

/// An argument of one type never stands for the same word as one of another type, for values
/// below `2^60`.
pub proof fn law_types_tell_arguments_apart(h: u64, i: i64, x: FloatBits, b: bool)
    requires
        h < 0x1000_0000_0000_0000,
        0 <= i < 0x1000_0000_0000_0000,
    ensures
        arg_word(LuaArgWire::Hash(h)) != arg_word(LuaArgWire::Int(i)),
        arg_word(LuaArgWire::Hash(h)) != arg_word(LuaArgWire::Num(x)),
        arg_word(LuaArgWire::Hash(h)) != arg_word(LuaArgWire::Bool(b)),
        arg_word(LuaArgWire::Hash(h)) != arg_word(LuaArgWire::Nil),
        arg_word(LuaArgWire::Int(i)) != arg_word(LuaArgWire::Num(x)),
        arg_word(LuaArgWire::Int(i)) != arg_word(LuaArgWire::Bool(b)),
        arg_word(LuaArgWire::Int(i)) != arg_word(LuaArgWire::Nil),
        arg_word(LuaArgWire::Num(x)) != arg_word(LuaArgWire::Bool(b)),
        arg_word(LuaArgWire::Num(x)) != arg_word(LuaArgWire::Nil),
        arg_word(LuaArgWire::Bool(b)) != arg_word(LuaArgWire::Nil),
        arg_word(LuaArgWire::Bool(true)) != arg_word(LuaArgWire::Bool(false)),
{
    let (n, v) = (i as u64, x.0 as u64);
    let w: u64 = if b {
        1
    } else {
        0
    };
    let top: u64 = 0x1000_0000_0000_0000;
    assert(h < top && n < top && v < top && w < top ==> (0x1000_0000_0000_0000u64 ^ h)
        / 0x1000_0000_0000_0000 == 1 && (0x3000_0000_0000_0000u64 ^ n) / 0x1000_0000_0000_0000 == 3
        && (0x2000_0000_0000_0000u64 ^ v) / 0x1000_0000_0000_0000 == 2 && (0x4000_0000_0000_0000u64
        ^ w) / 0x1000_0000_0000_0000 == 4) by (bit_vector)
        requires
            top == 0x1000_0000_0000_0000u64,
    ;
    assert(0x4000_0000_0000_0000u64 ^ 1 != 0x4000_0000_0000_0000u64 ^ 0) by (bit_vector);
}

/// The editor's own categories for collisions go out under the game's numbers, and every other
/// category as it is.
pub proof fn law_categories_go_out_as_the_game_has_them(editor: DisplayCategories, display: u8)
    requires
        editor.abs != editor.search,
        editor.abs != editor.attack_fp,
        editor.search != editor.attack_fp,
    ensures
        category_on_wire(editor.abs, editor) == 4,
        category_on_wire(editor.search, editor) == 7,
        category_on_wire(editor.attack_fp, editor) == 12,
        display != editor.abs && display != editor.search && display != editor.attack_fp
            ==> category_on_wire(display, editor) == display,
{
}

/// Arguments are the same where they have the same type and the same value; numbers by their value,
/// not by their pattern.
pub proof fn law_same_arguments(a: LuaArgWire, b: LuaArgWire)
    ensures
        same_arg(a, b) <==> match (a, b) {
            (LuaArgWire::Hash(x), LuaArgWire::Hash(y)) => x == y,
            (LuaArgWire::Int(x), LuaArgWire::Int(y)) => x == y,
            (LuaArgWire::Bool(x), LuaArgWire::Bool(y)) => x == y,
            (LuaArgWire::Num(x), LuaArgWire::Num(y)) => x.same_number(y),
            (LuaArgWire::Nil, LuaArgWire::Nil) => true,
            _ => false,
        },
{
}

/// The arguments of a call stand behind each other in its key, each with all its bytes.
pub proof fn law_arguments_stand_in_order(
    args: Seq<LuaArgWire>,
    numbers: Seq<FloatBits>,
    integers: Seq<i64>,
    more: (LuaArgWire, FloatBits, i64),
)
    ensures
        arg_bytes(args.push(more.0)) == arg_bytes(args) + low_bytes(arg_word(more.0) as nat, 8),
        number_bytes(numbers.push(more.1)) == number_bytes(numbers) + low_bytes(
            more.1.0 as nat,
            4,
        ),
        integer_bytes(integers.push(more.2)) == integer_bytes(integers) + low_bytes(
            (more.2 as u64) as nat,
            8,
        ),
        arg_bytes(Seq::empty()).len() == 0,
        number_bytes(Seq::empty()).len() == 0,
        integer_bytes(Seq::empty()).len() == 0,
{
    assert(args.push(more.0).drop_last() =~= args);
    assert(numbers.push(more.1).drop_last() =~= numbers);
    assert(integers.push(more.2).drop_last() =~= integers);
}

/// A form without pins pins nothing, and each pin on its own counts.
pub proof fn law_each_pin_counts(pins: PinsWire)
    ensures
        !pins.pins_anything() <==> pins.scale is None && pins.rate is None && pins.pos is None
            && pins.rot is None && pins.visible is None && pins.frame is None && pins.color is None
            && pins.movement_state is None,
{
}

/// What stands for an argument in source code, given how a number is written; nothing stands for a
/// missing argument.
pub open spec fn source_arg(arg: LuaArgWire, number: Seq<char>) -> Option<Seq<char>> {
    match arg {
        LuaArgWire::Hash(h) => Some(
            "Hash40::new_raw(0x"@ + crate::text::hexadecimal(h as nat) + ")"@,
        ),
        LuaArgWire::Num(x) => Some(number),
        LuaArgWire::Int(i) => Some(crate::text::signed_decimal(i as int)),
        LuaArgWire::Bool(b) => Some(if b { "true"@ } else { "false"@ }),
        LuaArgWire::Nil => None,
    }
}

/// An argument can be read back from what stands for it in source code.
pub proof fn law_source_args_read_back(arg: LuaArgWire, number: Seq<char>)
    ensures
        (arg is Nil) == (source_arg(arg, number) is None),
        source_arg(arg, number) matches Some(text) ==> match arg {
            LuaArgWire::Hash(h) => {
                &&& text.len() > 19
                &&& text.take(18) == "Hash40::new_raw(0x"@
                &&& crate::motions::hex_value(text.subrange(18, text.len() - 1)) == Some(h as nat)
                &&& text.last() == ')'
            },
            LuaArgWire::Num(x) => text == number,
            LuaArgWire::Int(i) => {
                &&& text.len() > 0
                &&& i >= 0 ==> crate::text::number_in(text, u64::MAX as nat) == Some(i as nat)
                &&& i < 0 ==> text[0] == '-' && crate::text::number_in(
                    text.skip(1),
                    u64::MAX as nat,
                ) == Some((-i) as nat)
            },
            LuaArgWire::Bool(b) => b == (text.len() == 4) && b == (text[0] == 't'),
            LuaArgWire::Nil => false,
        },
{
    reveal_strlit("Hash40::new_raw(0x");
    reveal_strlit(")");
    reveal_strlit("true");
    reveal_strlit("false");
    match arg {
        LuaArgWire::Hash(h) => {
            let text = source_arg(arg, number)->Some_0;
            crate::text::law_hexadecimal_reads_back(h as nat);
            assert(text.take(18) =~= "Hash40::new_raw(0x"@);
            assert(text.subrange(18, text.len() - 1) =~= crate::text::hexadecimal(h as nat));
        },
        LuaArgWire::Int(i) => {
            crate::text::law_signed_numbers_read_back(i as int, u64::MAX as nat);
        },
        _ => {},
    }
}

} // verus!
