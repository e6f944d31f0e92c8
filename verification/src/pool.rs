//! The pool of reusable resources that previews draw on, and the package that brings it into the
//! game.
use crate::json::write_pretty;
use crate::text::decimal_text;
use vstd::prelude::*;

verus! {

/// How large the pool is and where it stands among the game's files.
#[derive(Debug)]
pub struct ResourcePool {
    /// Changes whenever the pool does.
    pub version: String,
    pub model_root: String,
    pub motion_root: String,
    pub texture_capacity: usize,
    pub motion_capacity: usize,
}

/// `n` in decimal, with zeros in front up to four digits.
pub open spec fn four_digits(n: nat) -> Seq<char> {
    if n < 10 {
        "000"@ + crate::text::decimal(n)
    } else if n < 100 {
        "00"@ + crate::text::decimal(n)
    } else if n < 1000 {
        "0"@ + crate::text::decimal(n)
    } else {
        crate::text::decimal(n)
    }
}

/// The name of a texture of the pool.
pub open spec fn texture_slot(index: nat) -> Seq<char> {
    "visionary_tex_"@ + four_digits(index)
}

/// The name of an animation of the pool, without its extension.
pub open spec fn motion_stem(index: nat) -> Seq<char> {
    "visionary_motion_"@ + four_digits(index)
}

/// The file name of an animation of the pool.
pub open spec fn motion_slot(index: nat) -> Seq<char> {
    motion_stem(index) + ".nuanmb"@
}

fn write_four_digits(n: usize) -> (text: String)
    ensures
        text@ == four_digits(n as nat),
{
    let digits = decimal_text(n as u64);
    let mut text = if n < 10 {
        "000".to_owned()
    } else if n < 100 {
        "00".to_owned()
    } else if n < 1000 {
        "0".to_owned()
    } else {
        return digits;
    };
    text.append(digits.as_str());
    text
}

/// The name of a texture of the pool.
pub fn texture_name(index: usize) -> (name: String)
    ensures
        name@ == texture_slot(index as nat),
{
    let mut name = "visionary_tex_".to_owned();
    name.append(write_four_digits(index).as_str());
    name
}

/// The name of an animation of the pool, without its extension.
pub fn motion_stem_name(index: usize) -> (name: String)
    ensures
        name@ == motion_stem(index as nat),
{
    let mut name = "visionary_motion_".to_owned();
    name.append(write_four_digits(index).as_str());
    name
}

/// The file name of an animation of the pool.
pub fn motion_name(index: usize) -> (name: String)
    ensures
        name@ == motion_slot(index as nat),
{
    let mut name = motion_stem_name(index);
    name.append(".nuanmb");
    name
}

// ── The package ──────────────────────────────────────────────────────────────

/// `root/file`.
pub open spec fn under(root: Seq<char>, file: Seq<char>) -> Seq<char> {
    root + "/"@ + file
}

fn write_under(root: &str, file: &str) -> (path: String)
    ensures
        path@ == under(root@, file@),
{
    let mut path = root.to_owned();
    path.append("/");
    path.append(file);
    path
}

/// The texture files of the package.
pub open spec fn model_files(pool: ResourcePool) -> Seq<Seq<char>> {
    Seq::new(
        pool.texture_capacity as nat,
        |i: int| under(pool.model_root@, texture_slot(i as nat) + ".nutexb"@),
    )
}

/// The motion files of the package: its animations, and parameters that say nothing.
pub open spec fn motion_files(pool: ResourcePool) -> Seq<Seq<char>> {
    Seq::new(
        pool.motion_capacity as nat,
        |i: int| under(pool.motion_root@, motion_slot(i as nat)),
    ) + seq![
        under(pool.motion_root@, "swingblend.prc"@),
        under(pool.motion_root@, "ik.prc"@),
    ]
}

/// The texture files of the package.
pub fn support_model_files(pool: &ResourcePool) -> (files: Vec<String>)
    ensures
        crate::text::texts(files@) == model_files(*pool),
{
    let mut files: Vec<String> = Vec::new();
    let mut i: usize = 0;
    while i < pool.texture_capacity
        invariant
            i <= pool.texture_capacity,
            files@.len() == i,
            forall|j: int| 0 <= j < i ==> (#[trigger] files@[j])@ == model_files(*pool)[j],
        decreases pool.texture_capacity - i,
    {
        let mut name = texture_name(i);
        name.append(".nutexb");
        files.push(write_under(pool.model_root.as_str(), name.as_str()));
        i += 1;
    }
    assert(crate::text::texts(files@) =~= model_files(*pool));
    files
}

/// The motion files of the package.
pub fn support_motion_files(pool: &ResourcePool) -> (files: Vec<String>)
    ensures
        crate::text::texts(files@) == motion_files(*pool),
{
    let mut files: Vec<String> = Vec::new();
    let mut i: usize = 0;
    while i < pool.motion_capacity
        invariant
            i <= pool.motion_capacity,
            files@.len() == i,
            forall|j: int| 0 <= j < i ==> (#[trigger] files@[j])@ == motion_files(*pool)[j],
        decreases pool.motion_capacity - i,
    {
        files.push(write_under(pool.motion_root.as_str(), motion_name(i).as_str()));
        i += 1;
    }
    files.push(write_under(pool.motion_root.as_str(), "swingblend.prc"));
    files.push(write_under(pool.motion_root.as_str(), "ik.prc"));
    assert(crate::text::texts(files@) =~= motion_files(*pool));
    files
}

/// The files that each folder of the game gains.
pub open spec fn gained_files(pool: ResourcePool) -> Seq<(Seq<char>, Seq<Seq<char>>)> {
    seq![(pool.model_root@, model_files(pool)), (pool.motion_root@, motion_files(pool))]
}

/// The package's config: the files that each folder gains.
pub open spec fn config_of(pool: ResourcePool) -> Seq<char> {
    crate::json::pretty_of("new-dir-files"@, gained_files(pool))
}

/// The package's config.
pub fn support_config(pool: &ResourcePool) -> (config: String)
    ensures
        config@ == config_of(*pool),
{
    let mut lists: Vec<(String, Vec<String>)> = Vec::new();
    lists.push((pool.model_root.clone(), support_model_files(pool)));
    lists.push((pool.motion_root.clone(), support_motion_files(pool)));
    assert(crate::json::named_lists(lists@) =~= gained_files(*pool));
    match write_pretty("new-dir-files", &lists) {
        Some(config) => config,
        None => String::new(),
    }
}

// ── Laws ─────────────────────────────────────────────────────────────────────

proof fn lemma_leading_zero(text: Seq<char>)
    ensures
        crate::text::digits_value(seq!['0'] + text) == crate::text::digits_value(text),
    decreases text.len(),
{
    let all = seq!['0'] + text;
    if text.len() == 0 {
        assert(all.drop_last() =~= Seq::empty());
        assert(crate::text::digits_value(all.drop_last()) == 0);
    } else {
        lemma_leading_zero(text.drop_last());
        assert(all.drop_last() =~= seq!['0'] + text.drop_last());
    }
}

proof fn lemma_four_digits_value(n: nat)
    ensures
        crate::text::digits_value(four_digits(n)) == n,
{
    let digits = crate::text::decimal(n);
    crate::snapshots::lemma_decimal_digits(n);
    lemma_leading_zero(digits);
    lemma_leading_zero(seq!['0'] + digits);
    lemma_leading_zero(seq!['0'] + (seq!['0'] + digits));
    reveal_strlit("000");
    reveal_strlit("00");
    reveal_strlit("0");
    assert("0"@ + digits =~= seq!['0'] + digits);
    assert("00"@ + digits =~= seq!['0'] + (seq!['0'] + digits));
    assert("000"@ + digits =~= seq!['0'] + (seq!['0'] + (seq!['0'] + digits)));
}

/// No two resources of the pool share a name.
pub proof fn law_pool_names_differ(a: nat, b: nat)
    requires
        a != b,
    ensures
        texture_slot(a) != texture_slot(b),
        motion_stem(a) != motion_stem(b),
        motion_slot(a) != motion_slot(b),
{
    lemma_four_digits_value(a);
    lemma_four_digits_value(b);
    let x = four_digits(a);
    let y = four_digits(b);
    let tex = "visionary_tex_"@;
    let motion = "visionary_motion_"@;
    let end = ".nuanmb"@;
    assert((tex + x).skip(tex.len() as int) =~= x);
    assert((tex + y).skip(tex.len() as int) =~= y);
    assert((motion + x).skip(motion.len() as int) =~= x);
    assert((motion + y).skip(motion.len() as int) =~= y);
    assert((motion + x + end).take((motion.len() + x.len()) as int) =~= motion + x);
    assert((motion + y + end).take((motion.len() + y.len()) as int) =~= motion + y);
    if motion_slot(a) == motion_slot(b) {
        assert(motion_slot(a).len() == motion_slot(b).len());
        assert(x.len() == y.len());
    }
}

/// A name of the pool ends in the digits of its number, at least four of them.
pub proof fn law_pool_names_are_numbered(n: nat)
    ensures
        four_digits(n).len() >= 4,
        crate::text::is_digits(four_digits(n)),
        crate::text::digits_value(four_digits(n)) == n,
        n < 10000 ==> four_digits(n).len() == 4,
        texture_slot(n) == "visionary_tex_"@ + four_digits(n),
        motion_slot(n) == "visionary_motion_"@ + four_digits(n) + ".nuanmb"@,
{
    lemma_four_digits_value(n);
    crate::snapshots::lemma_decimal_digits(n);
    let digits = crate::text::decimal(n);
    reveal_strlit("000");
    reveal_strlit("00");
    reveal_strlit("0");
    lemma_decimal_len(n);
    let all = four_digits(n);
    let pad = all.len() - digits.len();
    assert forall|i: int| 0 <= i < all.len() implies crate::text::is_digit(#[trigger] all[i]) by {
        if i >= pad {
            assert(all[i] == digits[i - pad]);
            assert(crate::text::is_digit(digits[i - pad]));
        }
    }
}

proof fn lemma_decimal_len(n: nat)
    ensures
        n < 10 ==> crate::text::decimal(n).len() == 1,
        10 <= n < 100 ==> crate::text::decimal(n).len() == 2,
        100 <= n < 1000 ==> crate::text::decimal(n).len() == 3,
        1000 <= n < 10000 ==> crate::text::decimal(n).len() == 4,
        n >= 1000 ==> crate::text::decimal(n).len() >= 4,
    decreases n,
{
    if n >= 10 {
        lemma_decimal_len(n / 10);
    }
}

/// The config lists every texture and every animation of the pool under its folder, by its path in
/// the game, and the two parameter files that go with the animations.
pub proof fn law_config_lists_every_resource(pool: ResourcePool, i: int)
    ensures
        ({
            let lists = gained_files(pool);
            &&& lists.len() == 2
            &&& lists[0].0 == pool.model_root@
            &&& lists[1].0 == pool.motion_root@
            &&& lists[0].1.len() == pool.texture_capacity
            &&& lists[1].1.len() == pool.motion_capacity + 2
            &&& 0 <= i < pool.texture_capacity ==> lists[0].1[i] == pool.model_root@ + seq!['/']
                + texture_slot(i as nat) + ".nutexb"@
            &&& 0 <= i < pool.motion_capacity ==> lists[1].1[i] == pool.motion_root@ + seq!['/']
                + motion_slot(i as nat)
            &&& lists[1].1[pool.motion_capacity as int] == pool.motion_root@ + seq!['/']
                + "swingblend.prc"@
            &&& lists[1].1[pool.motion_capacity + 1] == pool.motion_root@ + seq!['/'] + "ik.prc"@
        }),
{
    reveal_strlit("/");
    assert("/"@ =~= seq!['/']);
    let lists = gained_files(pool);
    if 0 <= i < pool.texture_capacity {
        assert(lists[0].1[i] =~= pool.model_root@ + seq!['/'] + texture_slot(i as nat)
            + ".nutexb"@);
    }
}

} // verus!
