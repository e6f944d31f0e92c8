//! The installation of the package that brings the pool into the game.
use crate::paths::join;
use crate::pool::{motion_name, support_config, texture_name, ResourcePool};
use crate::text::same_text;
use vstd::prelude::*;

verus! {

/// The package's folder on the card.
pub const SUPPORT_ROOT: &'static str = "ultimate/mods/visionary_live_assets";

/// The file that says which version of the package is complete.
pub const SUPPORT_MARKER: &'static str = "effect_viewer/live_assets/pool.version";

/// What the package says of itself.
pub const SUPPORT_INFO: &'static str = "display_name = \"Visionary Live Assets\"\nversion = \"1\"\ndescription = \"Reusable resources for live character previews.\"\n";

// ── The files ────────────────────────────────────────────────────────────────

/// What a file of the package holds.
#[derive(Debug)]
pub enum SupportContent {
    /// A texture file.
    Texture(Vec<u8>),
    /// An animation that moves nothing.
    EmptyAnimation,
    /// Parameters that say nothing.
    EmptyParameters,
    /// This text.
    Text(String),
}

#[verifier::ext_equal]
pub enum SupportContentView {
    Texture(Seq<u8>),
    EmptyAnimation,
    EmptyParameters,
    Text(Seq<char>),
}

impl View for SupportContent {
    type V = SupportContentView;

    open spec fn view(&self) -> SupportContentView {
        match *self {
            SupportContent::Texture(bytes) => SupportContentView::Texture(bytes@),
            SupportContent::EmptyAnimation => SupportContentView::EmptyAnimation,
            SupportContent::EmptyParameters => SupportContentView::EmptyParameters,
            SupportContent::Text(text) => SupportContentView::Text(text@),
        }
    }
}

/// A file of the package, with its path on the card.
#[derive(Debug)]
pub struct SupportFile {
    pub path: String,
    pub content: SupportContent,
}

#[verifier::ext_equal]
pub struct SupportView {
    pub path: Seq<char>,
    pub content: SupportContentView,
}

impl View for SupportFile {
    type V = SupportView;

    open spec fn view(&self) -> SupportView {
        SupportView { path: self.path@, content: self.content@ }
    }
}

/// The views of a list of files.
pub open spec fn support_views(files: Seq<SupportFile>) -> Seq<SupportView> {
    Seq::new(files.len(), |i: int| files[i]@)
}

/// The path of a file in a folder of the package.
pub open spec fn packed_path(folder: Seq<char>, name: Seq<char>) -> Seq<char> {
    crate::paths::joined(crate::paths::joined(SUPPORT_ROOT@, folder), name)
}

fn pack_path(folder: &str, name: &str) -> (path: String)
    ensures
        path@ == packed_path(folder@, name@),
{
    join(join(SUPPORT_ROOT, folder).as_str(), name)
}

/// The file that `nutexb::NutexbFile::from_surface` makes of one RGBA pixel and a name, as
/// `NutexbFile::write` writes it; nothing where either fails.
pub uninterp spec fn pixel_texture_of(pixel: Seq<u8>, name: Seq<char>) -> Option<Seq<u8>>;

/// The view of bytes that may be missing.
pub open spec fn optional_bytes(bytes: Option<Vec<u8>>) -> Option<Seq<u8>> {
    match bytes {
        Some(b) => Some(b@),
        None => None,
    }
}

/// `nutexb::NutexbFile::from_surface`, on a surface of one RGBA pixel, and the bytes of the file
/// that it gives. These depend on the pixel and the name alone; they are named, not described.
#[verifier::external_body]
fn write_pixel_texture(pixel: &Vec<u8>, name: &str) -> (bytes: Option<Vec<u8>>)
    requires
        pixel@.len() == 4,
    ensures
        optional_bytes(bytes) == pixel_texture_of(pixel@, name@),
{
    let image_format = nutexb::NutexbFormat::R8G8B8A8Unorm;
    let (width, height, depth, mipmap_count, layer_count) = (1, 1, 1, 1, 1);
    let image_data = pixel.as_slice();
    let surface =
        nutexb::Surface { width, height, depth, image_data, mipmap_count, layer_count, image_format };
    let mut out = std::io::Cursor::new(Vec::new());
    nutexb::NutexbFile::from_surface(surface, name).ok()?.write(&mut out).ok()?;
    Some(out.into_inner())
}

/// A white pixel.
pub open spec fn white() -> Seq<u8> {
    seq![255, 255, 255, 255]
}

/// The first textures of the package, each a white pixel under its own name; nothing where one
/// cannot be written.
pub open spec fn texture_files(pool: ResourcePool, n: nat) -> Option<Seq<SupportView>>
    decreases n,
{
    if n == 0 {
        Some(Seq::empty())
    } else {
        let i = (n - 1) as nat;
        let name = crate::pool::texture_slot(i);
        match (texture_files(pool, i), pixel_texture_of(white(), name)) {
            (Some(before), Some(bytes)) => Some(
                before.push(
                    SupportView {
                        path: packed_path(pool.model_root@, name + ".nutexb"@),
                        content: SupportContentView::Texture(bytes),
                    },
                ),
            ),
            _ => None,
        }
    }
}

/// The animations of the package.
pub open spec fn animation_files(pool: ResourcePool) -> Seq<SupportView> {
    Seq::new(
        pool.motion_capacity as nat,
        |i: int|
            SupportView {
                path: packed_path(pool.motion_root@, crate::pool::motion_slot(i as nat)),
                content: SupportContentView::EmptyAnimation,
            },
    )
}

/// The files behind the resources, and the marker last of all.
pub open spec fn closing_files(pool: ResourcePool) -> Seq<SupportView> {
    seq![
        SupportView {
            path: packed_path(pool.motion_root@, "swingblend.prc"@),
            content: SupportContentView::EmptyParameters,
        },
        SupportView {
            path: packed_path(pool.motion_root@, "ik.prc"@),
            content: SupportContentView::EmptyParameters,
        },
        SupportView {
            path: config_path(),
            content: SupportContentView::Text(crate::pool::config_of(pool)),
        },
        SupportView {
            path: crate::paths::joined(SUPPORT_ROOT@, "info.toml"@),
            content: SupportContentView::Text(SUPPORT_INFO@),
        },
        SupportView {
            path: SUPPORT_MARKER@,
            content: SupportContentView::Text(pool.version@),
        },
    ]
}

/// Where the package's config is.
pub open spec fn config_path() -> Seq<char> {
    crate::paths::joined(SUPPORT_ROOT@, "config.json"@)
}

/// Everything that an installation writes, in order.
pub open spec fn package(pool: ResourcePool) -> Option<Seq<SupportView>> {
    match texture_files(pool, pool.texture_capacity as nat) {
        Some(textures) => Some(textures + animation_files(pool) + closing_files(pool)),
        None => None,
    }
}

/// A texture that cannot be written spoils all the lists that it belongs to.
proof fn lemma_texture_error(pool: ResourcePool, k: nat, n: nat)
    requires
        k <= n,
    ensures
        texture_files(pool, k) is None ==> texture_files(pool, n) is None,
    decreases n,
{
    if k < n {
        lemma_texture_error(pool, k, (n - 1) as nat);
    }
}

fn add_file(files: &mut Vec<SupportFile>, path: String, content: SupportContent)
    ensures
        support_views(final(files)@) == support_views(old(files)@).push(
            SupportView { path: path@, content: content@ },
        ),
{
    let ghost before = support_views(files@);
    files.push(SupportFile { path, content });
    assert(support_views(files@) =~= before.push(SupportView { path: path@, content: content@ }));
}

fn write_textures(pool: &ResourcePool) -> (files: Option<Vec<SupportFile>>)
    ensures
        match files {
            Some(list) => texture_files(*pool, pool.texture_capacity as nat) == Some(
                support_views(list@),
            ),
            None => texture_files(*pool, pool.texture_capacity as nat) is None,
        },
{
    let pixel: Vec<u8> = vec![255, 255, 255, 255];
    assert(pixel@ =~= white());
    let mut files: Vec<SupportFile> = Vec::new();
    assert(support_views(files@) =~= Seq::empty());
    let mut i: usize = 0;
    while i < pool.texture_capacity
        invariant
            i <= pool.texture_capacity,
            pixel@ == white(),
            texture_files(*pool, i as nat) == Some(support_views(files@)),
        decreases pool.texture_capacity - i,
    {
        proof {
            lemma_texture_error(*pool, (i + 1) as nat, pool.texture_capacity as nat);
        }
        let name = texture_name(i);
        let bytes = match write_pixel_texture(&pixel, name.as_str()) {
            Some(bytes) => bytes,
            None => {
                return None;
            },
        };
        let mut file = name;
        file.append(".nutexb");
        let path = pack_path(pool.model_root.as_str(), file.as_str());
        add_file(&mut files, path, SupportContent::Texture(bytes));
        i += 1;
    }
    Some(files)
}

/// The files of the package.
fn write_package(pool: &ResourcePool) -> (files: Option<Vec<SupportFile>>)
    ensures
        match files {
            Some(list) => package(*pool) == Some(support_views(list@)),
            None => package(*pool) is None,
        },
{
    let mut files = match write_textures(pool) {
        Some(files) => files,
        None => {
            return None;
        },
    };
    let ghost textures = support_views(files@);
    let ghost animations = animation_files(*pool);
    let mut i: usize = 0;
    assert(textures + animations.take(0) =~= textures);
    while i < pool.motion_capacity
        invariant
            i <= pool.motion_capacity,
            animations == animation_files(*pool),
            support_views(files@) == textures + animations.take(i as int),
        decreases pool.motion_capacity - i,
    {
        let path = pack_path(pool.motion_root.as_str(), motion_name(i).as_str());
        add_file(&mut files, path, SupportContent::EmptyAnimation);
        assert(support_views(files@) =~= textures + animations.take(i + 1));
        i += 1;
    }
    assert(animations.take(i as int) =~= animations);
    let motion = pool.motion_root.as_str();
    add_file(&mut files, pack_path(motion, "swingblend.prc"), SupportContent::EmptyParameters);
    add_file(&mut files, pack_path(motion, "ik.prc"), SupportContent::EmptyParameters);
    let config = join(SUPPORT_ROOT, "config.json");
    add_file(&mut files, config, SupportContent::Text(support_config(pool)));
    let info = join(SUPPORT_ROOT, "info.toml");
    add_file(&mut files, info, SupportContent::Text(SUPPORT_INFO.to_owned()));
    let marker = SUPPORT_MARKER.to_owned();
    add_file(&mut files, marker, SupportContent::Text(pool.version.clone()));
    assert(support_views(files@) =~= textures + animations + closing_files(*pool));
    Some(files)
}

// ── The installation ─────────────────────────────────────────────────────────

/// The package is complete: its config is there, and its marker, which is written last, says so.
pub open spec fn is_complete(
    has_config: bool,
    marker: Option<Seq<char>>,
    pool: ResourcePool,
) -> bool {
    has_config && marker == Some(pool.version@)
}

/// Whether the package is complete.
pub fn is_installed(has_config: bool, marker: Option<&str>, pool: &ResourcePool) -> (b: bool)
    ensures
        b == is_complete(
            has_config,
            match marker {
                Some(text) => Some(text@),
                None => None,
            },
            *pool,
        ),
{
    match marker {
        Some(text) => has_config && same_text(text, pool.version.as_str()),
        None => false,
    }
}

/// An installation: the package's folder, and the files to write, in order.
#[derive(Debug)]
pub struct Installation {
    pub root: String,
    pub writes: Vec<SupportFile>,
}

#[verifier::ext_equal]
pub struct InstallationView {
    pub root: Seq<char>,
    pub writes: Seq<SupportView>,
}

impl View for Installation {
    type V = InstallationView;

    open spec fn view(&self) -> InstallationView {
        InstallationView { root: self.root@, writes: support_views(self.writes@) }
    }
}

/// What is to be done for the package: nothing where it is complete, else all of it. A package
/// with a texture that cannot be written is not installed.
pub open spec fn installation(
    has_config: bool,
    marker: Option<Seq<char>>,
    pool: ResourcePool,
) -> Option<InstallationView> {
    if is_complete(has_config, marker, pool) {
        Some(InstallationView { root: SUPPORT_ROOT@, writes: Seq::empty() })
    } else {
        match package(pool) {
            Some(writes) => Some(InstallationView { root: SUPPORT_ROOT@, writes }),
            None => None,
        }
    }
}

/// Says what is to be written for the package, from what is there of its config and its marker.
pub fn install(has_config: bool, marker: Option<&str>, pool: &ResourcePool) -> (plan: Option<
    Installation,
>)
    ensures
        match installation(
            has_config,
            match marker {
                Some(text) => Some(text@),
                None => None,
            },
            *pool,
        ) {
            Some(i) => plan is Some && plan->Some_0@ == i,
            None => plan is None,
        },
{
    if is_installed(has_config, marker, pool) {
        let writes: Vec<SupportFile> = Vec::new();
        assert(support_views(writes@) =~= Seq::empty());
        return Some(Installation { root: SUPPORT_ROOT.to_owned(), writes });
    }
    match write_package(pool) {
        Some(writes) => Some(Installation { root: SUPPORT_ROOT.to_owned(), writes }),
        None => None,
    }
}

// ── Laws ─────────────────────────────────────────────────────────────────────

/// The card after these files have been written.
pub open spec fn written(
    card: Map<Seq<char>, SupportContentView>,
    writes: Seq<SupportView>,
) -> Map<Seq<char>, SupportContentView>
    decreases writes.len(),
{
    if writes.len() == 0 {
        card
    } else {
        written(card, writes.drop_last()).insert(writes.last().path, writes.last().content)
    }
}

/// The text of the marker on a card.
pub open spec fn marker_on(card: Map<Seq<char>, SupportContentView>) -> Option<Seq<char>> {
    if card.contains_key(SUPPORT_MARKER@) {
        match card[SUPPORT_MARKER@] {
            SupportContentView::Text(text) => Some(text),
            _ => None,
        }
    } else {
        None
    }
}

/// What is to be done for the package on a card.
pub open spec fn due_on(
    card: Map<Seq<char>, SupportContentView>,
    pool: ResourcePool,
) -> Option<InstallationView> {
    installation(card.contains_key(config_path()), marker_on(card), pool)
}

proof fn lemma_stays(
    card: Map<Seq<char>, SupportContentView>,
    writes: Seq<SupportView>,
    path: Seq<char>,
)
    ensures
        card.contains_key(path) ==> written(card, writes).contains_key(path),
        (forall|i: int| 0 <= i < writes.len() ==> (#[trigger] writes[i]).path != path)
            ==> written(card, writes).contains_key(path) == card.contains_key(path) && written(
            card,
            writes,
        )[path] == card[path],
        forall|i: int|
            0 <= i < writes.len() ==> written(card, writes).contains_key(
                (#[trigger] writes[i]).path,
            ),
    decreases writes.len(),
{
    if writes.len() > 0 {
        let rest = writes.drop_last();
        lemma_stays(card, rest, path);
        assert forall|i: int| 0 <= i < writes.len() implies written(card, writes).contains_key(
            (#[trigger] writes[i]).path,
        ) by {
            if i < rest.len() {
                assert(rest[i] == writes[i]);
            }
        }
        if forall|i: int| 0 <= i < writes.len() ==> (#[trigger] writes[i]).path != path {
            assert forall|i: int| 0 <= i < rest.len() implies (#[trigger] rest[i]).path != path by {
                assert(rest[i] == writes[i]);
            }
            assert(writes[writes.len() - 1].path != path);
        }
    }
}

proof fn lemma_packed_path(folder: Seq<char>, name: Seq<char>)
    requires
        name.len() > 0,
        name[0] != '/',
    ensures
        packed_path(folder, name).len() > 0,
        packed_path(folder, name)[0] == 'u' || packed_path(folder, name)[0] == '/',
        !crate::paths::is_absolute(folder) ==> crate::text::starts_with(
            packed_path(folder, name),
            SUPPORT_ROOT@ + "/"@,
        ),
{
    reveal_strlit("ultimate/mods/visionary_live_assets");
    reveal_strlit("/");
    let root = SUPPORT_ROOT@;
    let inner = crate::paths::joined(root, folder);
    let path = packed_path(folder, name);
    if crate::paths::is_absolute(folder) {
        assert(inner[0] == '/');
    } else {
        assert(inner =~= root + "/"@ + folder);
        assert(path.take((root + "/"@).len() as int) =~= root + "/"@);
    }
}

proof fn lemma_write_paths(pool: ResourcePool, n: nat)
    requires
        texture_files(pool, n) is Some,
    ensures
        forall|i: int|
            0 <= i < texture_files(pool, n)->Some_0.len() ==> is_packed(
                pool,
                (#[trigger] texture_files(pool, n)->Some_0[i]).path,
            ),
    decreases n,
{
    if n > 0 {
        let i = (n - 1) as nat;
        let name = crate::pool::texture_slot(i) + ".nutexb"@;
        lemma_write_paths(pool, i);
        reveal_strlit("visionary_tex_");
        assert(name[0] == 'v');
        assert(is_file_name(name));
        assert(is_packed(pool, packed_path(pool.model_root@, name)));
    }
}

/// The name is that of a file in a folder.
pub open spec fn is_file_name(name: Seq<char>) -> bool {
    name.len() > 0 && name[0] != '/'
}

/// The path is that of a file in one of the package's folders.
pub open spec fn is_packed(pool: ResourcePool, path: Seq<char>) -> bool {
    exists|name: Seq<char>| #[trigger]
        is_file_name(name) && (path == packed_path(pool.model_root@, name) || path == packed_path(
            pool.motion_root@,
            name,
        ) || path == crate::paths::joined(SUPPORT_ROOT@, name))
}

/// Everything but the marker goes into the package's folders.
proof fn lemma_package_paths(pool: ResourcePool, i: int)
    requires
        package(pool) is Some,
        0 <= i < package(pool)->Some_0.len() - 1,
    ensures
        is_packed(pool, package(pool)->Some_0[i].path),
{
    let textures = texture_files(pool, pool.texture_capacity as nat)->Some_0;
    let animations = animation_files(pool);
    let all = package(pool)->Some_0;
    lemma_write_paths(pool, pool.texture_capacity as nat);
    reveal_strlit("visionary_motion_");
    reveal_strlit("swingblend.prc");
    reveal_strlit("ik.prc");
    reveal_strlit("config.json");
    reveal_strlit("info.toml");
    let k = i - textures.len() - animations.len();
    if i < textures.len() {
        assert(all[i] == textures[i]);
    } else if k < 0 {
        assert(all[i] == animations[i - textures.len()]);
        let name = crate::pool::motion_slot((i - textures.len()) as nat);
        assert(name[0] == 'v');
        assert(is_file_name(name));
    } else {
        assert(all[i] == closing_files(pool)[k]);
        if k == 0 {
            assert(is_file_name("swingblend.prc"@));
        } else if k == 1 {
            assert(is_file_name("ik.prc"@));
        } else if k == 2 {
            assert(is_file_name("config.json"@));
        } else {
            assert(is_file_name("info.toml"@));
        }
    }
}

proof fn lemma_packed_start(pool: ResourcePool, path: Seq<char>)
    requires
        is_packed(pool, path),
    ensures
        path != SUPPORT_MARKER@,
        !crate::paths::is_absolute(pool.model_root@) && !crate::paths::is_absolute(
            pool.motion_root@,
        ) ==> crate::text::starts_with(path, SUPPORT_ROOT@ + "/"@),
{
    reveal_strlit("ultimate/mods/visionary_live_assets");
    reveal_strlit("effect_viewer/live_assets/pool.version");
    reveal_strlit("/");
    let name = choose|name: Seq<char>| #[trigger]
        is_file_name(name) && (path == packed_path(pool.model_root@, name) || path == packed_path(
            pool.motion_root@,
            name,
        ) || path == crate::paths::joined(SUPPORT_ROOT@, name));
    lemma_packed_path(pool.model_root@, name);
    lemma_packed_path(pool.motion_root@, name);
    assert(path[0] == 'u' || path[0] == '/');
    let root = SUPPORT_ROOT@;
    if path == crate::paths::joined(root, name) {
        assert(path.take((root + "/"@).len() as int) =~= root + "/"@);
    }
}

/// Only the package and its marker are written, where the pool stands in folders inside the
/// package.
pub proof fn law_only_the_package_is_written(pool: ResourcePool, i: int)
    requires
        package(pool) is Some,
        0 <= i < package(pool)->Some_0.len(),
        !crate::paths::is_absolute(pool.model_root@),
        !crate::paths::is_absolute(pool.motion_root@),
    ensures
        package(pool)->Some_0[i].path == SUPPORT_MARKER@ || crate::text::starts_with(
            package(pool)->Some_0[i].path,
            SUPPORT_ROOT@ + "/"@,
        ),
{
    let all = package(pool)->Some_0;
    if i < all.len() - 1 {
        lemma_package_paths(pool, i);
        lemma_packed_start(pool, all[i].path);
    } else {
        assert(all[i] == closing_files(pool)[4]);
    }
}

/// An installation that has been finished is found complete: there is nothing more to write, and
/// the package is where it was.
pub proof fn law_finished_installation_is_complete(
    card: Map<Seq<char>, SupportContentView>,
    pool: ResourcePool,
)
    requires
        due_on(card, pool) is Some,
    ensures
        due_on(written(card, due_on(card, pool)->Some_0.writes), pool) == Some(
            InstallationView { root: due_on(card, pool)->Some_0.root, writes: Seq::empty() },
        ),
{
    if !is_complete(card.contains_key(config_path()), marker_on(card), pool) {
        let all = package(pool)->Some_0;
        let n = all.len();
        assert(all[n - 1] == closing_files(pool)[4]);
        assert(all[n - 3] == closing_files(pool)[2]);
        lemma_stays(card, all, config_path());
        assert(written(card, all).contains_key(all[n - 3].path));
    }
}

/// An installation that was interrupted before its last write is done again from the start, on a
/// card whose marker did not already name this version.
pub proof fn law_interrupted_installation_is_repaired(
    card: Map<Seq<char>, SupportContentView>,
    pool: ResourcePool,
    k: int,
)
    requires
        due_on(card, pool) is Some,
        marker_on(card) != Some(pool.version@),
        0 <= k < due_on(card, pool)->Some_0.writes.len(),
    ensures
        due_on(written(card, due_on(card, pool)->Some_0.writes.take(k)), pool) == due_on(
            card,
            pool,
        ),
{
    let all = package(pool)->Some_0;
    let done = all.take(k);
    assert forall|i: int| 0 <= i < done.len() implies (#[trigger] done[i]).path
        != SUPPORT_MARKER@ by {
        lemma_package_paths(pool, i);
        lemma_packed_start(pool, all[i].path);
    }
    lemma_stays(card, done, SUPPORT_MARKER@);
}

/// The marker is written last, with the version of the pool, and nothing else is written in its
/// place.
pub proof fn law_marker_is_written_last(pool: ResourcePool, i: int)
    requires
        package(pool) is Some,
    ensures
        ({
            let writes = package(pool)->Some_0;
            &&& writes.len() > 0
            &&& writes.last().path == "effect_viewer/live_assets/pool.version"@
            &&& writes.last().content == SupportContentView::Text(pool.version@)
            &&& 0 <= i < writes.len() - 1 ==> writes[i].path
                != "effect_viewer/live_assets/pool.version"@
        }),
{
    let writes = package(pool)->Some_0;
    assert(writes.last() == closing_files(pool)[4]);
    if 0 <= i < writes.len() - 1 {
        lemma_package_paths(pool, i);
        lemma_packed_start(pool, writes[i].path);
    }
}

/// Every texture of the pool is written as a white pixel under its own name, every animation as an
/// empty one, and the config as the list of both.
pub proof fn law_package_holds_every_resource(pool: ResourcePool, i: int)
    requires
        package(pool) is Some,
    ensures
        ({
            let writes = package(pool)->Some_0;
            let t = pool.texture_capacity as int;
            let m = t + pool.motion_capacity;
            &&& writes.len() == m + 5
            &&& 0 <= i < t ==> writes[i].path == packed_path(
                pool.model_root@,
                crate::pool::texture_slot(i as nat) + ".nutexb"@,
            ) && pixel_texture_of(
                seq![255u8, 255u8, 255u8, 255u8],
                crate::pool::texture_slot(i as nat),
            ) is Some && writes[i].content == SupportContentView::Texture(
                pixel_texture_of(
                    seq![255u8, 255u8, 255u8, 255u8],
                    crate::pool::texture_slot(i as nat),
                )->Some_0,
            )
            &&& t <= i < m ==> writes[i].path == packed_path(
                pool.motion_root@,
                crate::pool::motion_slot((i - t) as nat),
            ) && writes[i].content == SupportContentView::EmptyAnimation
            &&& writes[m + 2].path == crate::paths::joined(SUPPORT_ROOT@, "config.json"@)
            &&& writes[m + 2].content == SupportContentView::Text(crate::pool::config_of(pool))
        }),
{
    let t = pool.texture_capacity as nat;
    let textures = texture_files(pool, t)->Some_0;
    let animations = animation_files(pool);
    let writes = package(pool)->Some_0;
    lemma_textures(pool, t, i);
    let m = t + pool.motion_capacity;
    if 0 <= i < t {
        assert(writes[i] == textures[i]);
    } else if t <= i < m {
        assert(writes[i] == animations[i - t]);
    }
    assert(writes[m + 2] == closing_files(pool)[2]);
}

proof fn lemma_textures(pool: ResourcePool, n: nat, i: int)
    requires
        texture_files(pool, n) is Some,
    ensures
        texture_files(pool, n)->Some_0.len() == n,
        0 <= i < n ==> {
            let name = crate::pool::texture_slot(i as nat);
            let file = texture_files(pool, n)->Some_0[i];
            &&& file.path == packed_path(pool.model_root@, name + ".nutexb"@)
            &&& pixel_texture_of(seq![255u8, 255u8, 255u8, 255u8], name) is Some
            &&& file.content == SupportContentView::Texture(
                pixel_texture_of(seq![255u8, 255u8, 255u8, 255u8], name)->Some_0,
            )
        },
    decreases n,
{
    if n > 0 {
        lemma_textures(pool, (n - 1) as nat, i);
    }
}

} // verus!
