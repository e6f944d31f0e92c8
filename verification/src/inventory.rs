//! What the account of a costume's files says of its folders.
use crate::workspace::{
    accounts_for, asset_name, by_game_path, costume_files, fighter_part, game_path,
    has_motion_file, is_animation_path, is_fighter_name, is_model_path, is_regular, is_shown,
    last_part, names_where, shown_files, slot_part, AssetArea, AssetErrorView, AssetFileView,
    ListedView, WorkspaceAssetInventory,
};
use vstd::prelude::*;

verus! {

/// The entry is a shown file that goes by this name.
pub open spec fn shows_as(entry: ListedView, area: AssetArea, name: Seq<char>) -> bool {
    is_shown(entry.path, area) && is_regular(entry) && asset_name(entry.path) == Ok::<
        Seq<char>,
        AssetErrorView,
    >(name)
}

/// Some shown file of a folder goes by this name.
pub open spec fn shows_name(entries: Seq<ListedView>, area: AssetArea, name: Seq<char>) -> bool {
    exists|i: int| 0 <= i < entries.len() && #[trigger] shows_as(entries[i], area, name)
}

/// Some file has this game path.
pub open spec fn has_path(files: Seq<AssetFileView>, path: Seq<char>) -> bool {
    exists|k: int| 0 <= k < files.len() && (#[trigger] files[k]).game_path == path
}

/// The path is that of a shown file of a folder.
pub open spec fn is_shown_path(
    entries: Seq<ListedView>,
    fighter: Seq<char>,
    slot: u8,
    area: AssetArea,
    path: Seq<char>,
) -> bool {
    exists|name: Seq<char>| #[trigger]
        shows_name(entries, area, name) && path == game_path(fighter, area.part(), slot, name)
}

proof fn lemma_shown(entries: Seq<ListedView>, fighter: Seq<char>, slot: u8, area: AssetArea)
    requires
        shown_files(entries, fighter, slot, area) is Ok,
    ensures
        forall|k: int|
            0 <= k < shown_files(entries, fighter, slot, area)->Ok_0.len() ==> is_shown_path(
                entries,
                fighter,
                slot,
                area,
                (#[trigger] shown_files(entries, fighter, slot, area)->Ok_0[k]).game_path,
            ),
        forall|name: Seq<char>| #[trigger]
            shows_name(entries, area, name) ==> has_path(
                shown_files(entries, fighter, slot, area)->Ok_0,
                game_path(fighter, area.part(), slot, name),
            ),
    decreases entries.len(),
{
    let files = shown_files(entries, fighter, slot, area)->Ok_0;
    if entries.len() > 0 {
        let rest = entries.drop_last();
        let before = shown_files(rest, fighter, slot, area)->Ok_0;
        lemma_shown(rest, fighter, slot, area);
        assert forall|k: int| 0 <= k < files.len() implies is_shown_path(
            entries,
            fighter,
            slot,
            area,
            (#[trigger] files[k]).game_path,
        ) by {
            if k < before.len() {
                assert(files[k] == before[k]);
                let name = choose|name: Seq<char>|
                    #[trigger] shows_name(rest, area, name) && before[k].game_path == game_path(
                        fighter,
                        area.part(),
                        slot,
                        name,
                    );
                let i = choose|i: int|
                    0 <= i < rest.len() && #[trigger] shows_as(rest[i], area, name);
                assert(shows_as(entries[i], area, name));
                assert(shows_name(entries, area, name));
            } else {
                let name = asset_name(entries.last().path)->Ok_0;
                assert(shows_as(entries[entries.len() - 1], area, name));
                assert(shows_name(entries, area, name));
            }
        }
        assert forall|name: Seq<char>| #[trigger] shows_name(entries, area, name) implies has_path(
            files,
            game_path(fighter, area.part(), slot, name),
        ) by {
            let path = game_path(fighter, area.part(), slot, name);
            let i = choose|i: int|
                0 <= i < entries.len() && #[trigger] shows_as(entries[i], area, name);
            if i < rest.len() {
                assert(shows_as(rest[i], area, name));
                assert(shows_name(rest, area, name));
                let k = choose|k: int|
                    0 <= k < before.len() && (#[trigger] before[k]).game_path == path;
                assert(files[k] == before[k]);
            } else {
                assert(files[files.len() - 1].game_path == path);
            }
        }
    }
}

// ── Game paths ───────────────────────────────────────────────────────────────

proof fn lemma_slot_part(slot: u8)
    ensures
        !slot_part(slot).contains('/'),
{
    let text = slot_part(slot);
    crate::snapshots::lemma_decimal_digits(slot as nat);
    reveal_strlit("c0");
    reveal_strlit("c");
    let digits = crate::text::decimal(slot as nat);
    assert forall|i: int| 0 <= i < text.len() implies text[i] != '/' by {
        let n: int = if slot < 10 {
            2
        } else {
            1
        };
        if i >= n {
            assert(text[i] == digits[i - n]);
            assert(crate::text::is_digit(digits[i - n]));
        }
    }
}

/// What stands before the name in a game path.
pub open spec fn folder_of(fighter: Seq<char>, area: AssetArea, slot: u8) -> Seq<char> {
    "fighter/"@ + fighter + "/"@ + area.part() + "/body/"@ + slot_part(slot) + "/"@
}

proof fn lemma_name_at_end(fighter: Seq<char>, slot: u8, area: AssetArea, name: Seq<char>)
    requires
        !name.contains('/'),
    ensures
        game_path(fighter, area.part(), slot, name) == folder_of(fighter, area, slot) + name,
        last_part(game_path(fighter, area.part(), slot, name)) == name,
{
    reveal_strlit("/");
    let folder = folder_of(fighter, area, slot);
    let path = game_path(fighter, area.part(), slot, name);
    assert(path =~= folder + name);
    let at = folder.len() - 1;
    assert(path[at] == '/');
    assert(path.subrange(at, at + 1) =~= "/"@);
    assert forall|j: int| at < j implies !crate::text::occurs_at(path, "/"@, j) by {
        if crate::text::occurs_at(path, "/"@, j) {
            assert(path.subrange(j, j + 1)[0] == '/');
            assert(name[j - at - 1] == '/');
        }
    }
    crate::text::lemma_rfind_is(path, "/"@, at);
    assert(path.skip(at + 1) =~= name);
}

proof fn lemma_model_path(fighter: Seq<char>, slot: u8, area: AssetArea, name: Seq<char>)
    requires
        is_fighter_name(fighter),
        fighter != "model"@,
        !name.contains('/'),
    ensures
        is_model_path(game_path(fighter, area.part(), slot, name)) == (area == AssetArea::Model),
{
    reveal_strlit("/");
    reveal_strlit("fighter/");
    reveal_strlit("model");
    reveal_strlit("motion");
    reveal_strlit("/body/");
    reveal_strlit("/model/");
    lemma_slot_part(slot);
    let path = game_path(fighter, area.part(), slot, name);
    let part = "/model/"@;
    let first: int = 8 + fighter.len() as int;
    assert forall|k: int| 0 <= k < fighter.len() implies fighter[k] != '/' by {
        assert(crate::link::is_target_char(fighter[k]));
    }
    assert forall|k: int| 0 <= k < fighter.len() implies path[8 + k] == fighter[k] by {}
    assert(path[7] == '/' && path[first] == '/');
    if area == AssetArea::Model {
        assert(path.subrange(first, first + 7) =~= part);
        assert(crate::text::occurs_at(path, part, first));
    } else {
        let slotted = slot_part(slot);
        let second: int = first + 7;
        let third: int = second + 5;
        let fourth: int = third + 1 + slotted.len();
        assert(path[second] == '/' && path[third] == '/');
        assert forall|k: int| 0 <= k < slotted.len() implies path[third + 1 + k] == slotted[k] by {}
        assert forall|k: int| 0 <= k < slotted.len() implies slotted[k] != '/' by {}
        assert forall|k: int| 0 <= k < name.len() implies path[fourth + 1 + k] == name[k] by {}
        assert forall|i: int| !crate::text::occurs_at(path, part, i) by {
            if crate::text::occurs_at(path, part, i) {
                let here = path.subrange(i, i + 7);
                assert(here[0] == '/' && here[1] == 'm' && here[2] == 'o' && here[3] == 'd');
                assert(here[4] == 'e' && here[5] == 'l' && here[6] == '/');
                assert(path[i] == '/' && path[i + 1] == 'm' && path[i + 3] == 'd');
                assert(path[i + 2] == 'o' && path[i + 4] == 'e' && path[i + 5] == 'l');
                assert(path[i + 6] == '/');
                if i < 7 {
                    assert(path[i] == "fighter/"@[i]);
                } else if i == 7 {
                    if fighter.len() == 5 {
                        assert(fighter =~= "model"@);
                    } else if fighter.len() > 5 {
                        assert(path[13] == fighter[5]);
                    } else {
                        assert(path[first] == '/');
                        assert(i < first < i + 6);
                    }
                } else if i < first {
                    assert(path[i] == fighter[i - 8]);
                } else if i == first {
                    assert(path[i + 3] == "motion"@[2]);
                } else if i < second {
                    assert(path[i] == "motion"@[i - first - 1]);
                } else if i == second {
                    assert(path[i + 1] == 'b');
                } else if i < third {
                    assert(path[i] == "/body/"@[i - second]);
                } else if i == third {
                    if slotted.len() > 0 {
                        assert(path[i + 1] == slotted[0]);
                        assert(slotted[0] == 'c') by {
                            reveal_strlit("c0");
                            reveal_strlit("c");
                        }
                    }
                } else if i < fourth {
                    assert(path[i] == slotted[i - third - 1]);
                } else if i > fourth {
                    assert(path[i] == name[i - fourth - 1]);
                } else {
                    assert(path[i + 6] == name[5]);
                }
            }
        }
    }
}

proof fn lemma_motion_name(path: Seq<char>)
    requires
        is_shown(path, AssetArea::Motion),
        asset_name(path) is Ok,
    ensures
        ({
            let name = asset_name(path)->Ok_0;
            ||| crate::text::ends_with(name, ".nuanmb"@)
            ||| name == "swing.prc"@
            ||| name == "motion_list.bin"@
        }),
{
    let own = crate::paths::name_of(path)->Some_0;
    let name = asset_name(path)->Ok_0;
    if crate::workspace::small_extension(path) == "nuanmb"@ {
        reveal_strlit("nuanmb");
        reveal_strlit(".nuanmb");
        reveal_strlit(".");
        let extension = crate::paths::extension_of(path);
        crate::text::lemma_rfind_from(own, "."@, own.len() - 1);
        assert(crate::text::lower(extension).len() == extension.len());
        let k = crate::text::rfind(own, "."@)->Some_0;
        assert(extension.len() == 6);
        assert(own.subrange(k, k + 1)[0] == '.');
        assert(own[k] == '.');
        assert(k == own.len() - 7);
        assert forall|i: int| 0 <= i < 6 implies name[k + 1 + i] == "nuanmb"@[i] by {
            assert(crate::text::lower(extension)[i] == crate::text::lower_char(extension[i]));
            assert(extension[i] == own[k + 1 + i]);
        }
        assert(name[k] == '.');
        let end = name.skip(name.len() - 7);
        assert forall|i: int| 0 <= i < 7 implies end[i] == ".nuanmb"@[i] by {
            if i > 0 {
                assert(name[k + 1 + (i - 1)] == "nuanmb"@[i - 1]);
            }
        }
        assert(end =~= ".nuanmb"@);
    }
}

// ── Names among files ────────────────────────────────────────────────────────

/// A wanted file has this name.
pub open spec fn names_wanted(
    files: Seq<AssetFileView>,
    wanted: spec_fn(Seq<char>) -> bool,
    name: Seq<char>,
) -> bool {
    exists|k: int|
        0 <= k < files.len() && wanted((#[trigger] files[k]).game_path) && last_part(
            files[k].game_path,
        ) == name
}

proof fn lemma_names_where(files: Seq<AssetFileView>, wanted: spec_fn(Seq<char>) -> bool)
    ensures
        forall|n: int|
            0 <= n < names_where(files, wanted).len() ==> names_wanted(
                files,
                wanted,
                #[trigger] names_where(files, wanted)[n],
            ),
        forall|k: int|
            0 <= k < files.len() && wanted((#[trigger] files[k]).game_path) ==> names_where(
                files,
                wanted,
            ).contains(last_part(files[k].game_path)),
    decreases files.len(),
{
    let names = names_where(files, wanted);
    if files.len() > 0 {
        let rest = files.drop_last();
        let before = names_where(rest, wanted);
        lemma_names_where(rest, wanted);
        assert forall|n: int| 0 <= n < names.len() implies names_wanted(
            files,
            wanted,
            #[trigger] names[n],
        ) by {
            if n < before.len() {
                assert(names[n] == before[n]);
                let k = choose|k: int|
                    0 <= k < rest.len() && wanted((#[trigger] rest[k]).game_path) && last_part(
                        rest[k].game_path,
                    ) == before[n];
                assert(files[k] == rest[k]);
            } else {
                assert(wanted(files[files.len() - 1].game_path));
            }
        }
        assert forall|k: int|
            0 <= k < files.len() && wanted((#[trigger] files[k]).game_path) implies names.contains(
            last_part(files[k].game_path),
        ) by {
            let name = last_part(files[k].game_path);
            if k < rest.len() {
                assert(files[k] == rest[k]);
                let n = before.index_of(name);
                assert(before[n] == name);
                assert(names[n] == name);
            } else {
                assert(names[names.len() - 1] == name);
            }
        }
    }
}

/// The game path of a file with this name, outside the model folder.
pub open spec fn is_motion_path(path: Seq<char>, name: Seq<char>) -> bool {
    !is_model_path(path) && last_part(path) == name
}

proof fn lemma_four_kinds(files: Seq<AssetFileView>)
    requires
        forall|k: int|
            0 <= k < files.len() ==> {
                let path = (#[trigger] files[k]).game_path;
                ||| is_model_path(path)
                ||| is_animation_path(path)
                ||| is_motion_path(path, "swing.prc"@)
                ||| is_motion_path(path, "motion_list.bin"@)
            },
    ensures
        names_where(files, |p: Seq<char>| is_model_path(p)).len() + names_where(
            files,
            |p: Seq<char>| is_animation_path(p),
        ).len() + names_where(files, |p: Seq<char>| is_motion_path(p, "swing.prc"@)).len()
            + names_where(files, |p: Seq<char>| is_motion_path(p, "motion_list.bin"@)).len()
            == files.len(),
    decreases files.len(),
{
    if files.len() > 0 {
        let rest = files.drop_last();
        assert forall|k: int| 0 <= k < rest.len() implies {
            let path = (#[trigger] rest[k]).game_path;
            ||| is_model_path(path)
            ||| is_animation_path(path)
            ||| is_motion_path(path, "swing.prc"@)
            ||| is_motion_path(path, "motion_list.bin"@)
        } by {
            assert(rest[k] == files[k]);
        }
        lemma_four_kinds(rest);
        let path = files[files.len() - 1].game_path;
        reveal_strlit("swing.prc");
        reveal_strlit("motion_list.bin");
        reveal_strlit(".nuanmb");
        assert(!crate::text::ends_with("swing.prc"@, ".nuanmb"@)) by {
            assert("swing.prc"@.skip(2)[6] == 'c');
        }
        assert(!crate::text::ends_with("motion_list.bin"@, ".nuanmb"@)) by {
            assert("motion_list.bin"@.skip(8)[6] == 'n');
        }
        assert("swing.prc"@.len() != "motion_list.bin"@.len());
        assert(path == files.last().game_path);
    }
}

proof fn lemma_at_most_one(files: Seq<AssetFileView>, name: Seq<char>)
    requires
        forall|i: int, j: int|
            0 <= i < j < files.len() ==> !(is_motion_path((#[trigger] files[i]).game_path, name)
                && is_motion_path((#[trigger] files[j]).game_path, name)),
    ensures
        names_where(files, |p: Seq<char>| is_motion_path(p, name)).len() == (if has_motion_file(
            files,
            name,
        ) {
            1int
        } else {
            0int
        }),
    decreases files.len(),
{
    let wanted = |p: Seq<char>| is_motion_path(p, name);
    let names = names_where(files, wanted);
    lemma_names_where(files, wanted);
    if files.len() > 0 {
        let rest = files.drop_last();
        assert forall|i: int, j: int| 0 <= i < j < rest.len() implies !(is_motion_path(
            (#[trigger] rest[i]).game_path,
            name,
        ) && is_motion_path((#[trigger] rest[j]).game_path, name)) by {
            assert(rest[i] == files[i] && rest[j] == files[j]);
        }
        lemma_at_most_one(rest, name);
        if has_motion_file(rest, name) {
            let k = choose|k: int|
                0 <= k < rest.len() && !is_model_path((#[trigger] rest[k]).game_path)
                    && last_part(rest[k].game_path) == name;
            assert(files[k] == rest[k]);
            assert(is_motion_path(files[k].game_path, name));
            assert(!is_motion_path(files[files.len() - 1].game_path, name));
        } else if has_motion_file(files, name) {
            let k = choose|k: int|
                0 <= k < files.len() && !is_model_path((#[trigger] files[k]).game_path)
                    && last_part(files[k].game_path) == name;
            if k < rest.len() {
                assert(rest[k] == files[k]);
            }
        } else {
            assert(!is_motion_path(files[files.len() - 1].game_path, name));
        }
    }
}

proof fn lemma_before_behind(front: Seq<char>, a: Seq<char>, b: Seq<char>)
    ensures
        crate::text::before(front + a, front + b) == crate::text::before(a, b),
    decreases front.len(),
{
    if front.len() == 0 {
        assert(front + a =~= a);
        assert(front + b =~= b);
    } else {
        lemma_before_behind(front.skip(1), a, b);
        assert((front + a).skip(1) =~= front.skip(1) + a);
        assert((front + b).skip(1) =~= front.skip(1) + b);
    }
}

proof fn lemma_names_ascend(
    files: Seq<AssetFileView>,
    wanted: spec_fn(Seq<char>) -> bool,
    folder: Seq<char>,
)
    requires
        crate::ordering::is_strictly_ordered(files, by_game_path()),
        forall|k: int|
            0 <= k < files.len() && wanted((#[trigger] files[k]).game_path) ==> files[k].game_path
                == folder + last_part(files[k].game_path),
    ensures
        crate::ordering::is_strictly_ordered(
            names_where(files, wanted),
            crate::ordering::itself(),
        ),
    decreases files.len(),
{
    if files.len() > 0 {
        let rest = files.drop_last();
        let itself = crate::ordering::itself();
        let names = names_where(files, wanted);
        let before = names_where(rest, wanted);
        assert forall|i: int, j: int| 0 <= i < j < rest.len() implies crate::text::before(
            by_game_path()(#[trigger] rest[i]),
            by_game_path()(#[trigger] rest[j]),
        ) by {
            assert(rest[i] == files[i] && rest[j] == files[j]);
        }
        assert forall|k: int|
            0 <= k < rest.len() && wanted((#[trigger] rest[k]).game_path) implies rest[k].game_path
            == folder + last_part(rest[k].game_path) by {
            assert(rest[k] == files[k]);
        }
        lemma_names_ascend(rest, wanted, folder);
        lemma_names_where(rest, wanted);
        assert forall|i: int, j: int| 0 <= i < j < names.len() implies crate::text::before(
            itself(#[trigger] names[i]),
            itself(#[trigger] names[j]),
        ) by {
            assert(names[i] == before[i]);
            if j < before.len() {
                assert(names[j] == before[j]);
            } else {
                let last = files.len() - 1;
                let k = choose|k: int|
                    0 <= k < rest.len() && wanted((#[trigger] rest[k]).game_path) && last_part(
                        rest[k].game_path,
                    ) == before[i];
                assert(files[k] == rest[k]);
                assert(crate::text::before(
                    by_game_path()(files[k]),
                    by_game_path()(files[last]),
                ));
                lemma_before_behind(folder, names[i], names[j]);
            }
        }
    }
}

// ── Laws ─────────────────────────────────────────────────────────────────────

/// The listing of one of a costume's folders.
pub open spec fn listing(
    model: Seq<ListedView>,
    motion: Seq<ListedView>,
    area: AssetArea,
) -> Seq<ListedView> {
    match area {
        AssetArea::Model => model,
        AssetArea::Motion => motion,
    }
}

/// Where a file of a costume comes from.
proof fn lemma_file(
    fighter: Seq<char>,
    slot: u8,
    model: Seq<ListedView>,
    motion: Seq<ListedView>,
    k: int,
) -> (place: (AssetArea, Seq<char>))
    requires
        costume_files(fighter, slot, model, motion) is Ok,
        fighter_part(fighter)->Ok_0 != "model"@,
        0 <= k < costume_files(fighter, slot, model, motion)->Ok_0.len(),
    ensures
        ({
            let path = costume_files(fighter, slot, model, motion)->Ok_0[k].game_path;
            let name = fighter_part(fighter)->Ok_0;
            let (area, file) = place;
            &&& shows_name(listing(model, motion, area), area, file)
            &&& path == game_path(name, area.part(), slot, file)
            &&& path == folder_of(name, area, slot) + file
            &&& last_part(path) == file
            &&& is_model_path(path) == (area == AssetArea::Model)
            &&& area == AssetArea::Motion ==> crate::text::ends_with(file, ".nuanmb"@) || file
                == "swing.prc"@ || file == "motion_list.bin"@
        }),
{
    broadcast use vstd::seq_lib::group_to_multiset_ensures;

    let name = fighter_part(fighter)->Ok_0;
    let models = shown_files(model, name, slot, AssetArea::Model)->Ok_0;
    let motions = shown_files(motion, name, slot, AssetArea::Motion)->Ok_0;
    let all = models + motions;
    let files = costume_files(fighter, slot, model, motion)->Ok_0;
    lemma_shown(model, name, slot, AssetArea::Model);
    lemma_shown(motion, name, slot, AssetArea::Motion);
    crate::ordering::law_ordering_keeps_the_items(all, by_game_path());
    let item = files[k];
    assert(files.contains(item));
    assert(all.to_multiset().count(item) > 0);
    let at = all.index_of(item);
    let area = if at < models.len() {
        AssetArea::Model
    } else {
        AssetArea::Motion
    };
    let entries = listing(model, motion, area);
    let file = choose|file: Seq<char>|
        #[trigger] shows_name(entries, area, file) && item.game_path == game_path(
            name,
            area.part(),
            slot,
            file,
        );
    if at < models.len() {
        assert(models[at] == item);
    } else {
        assert(motions[at - models.len()] == item);
    }
    assert(shows_name(entries, area, file));
    let i = choose|i: int| 0 <= i < entries.len() && #[trigger] shows_as(entries[i], area, file);
    crate::workspace::law_asset_names_are_safe(entries[i].path);
    lemma_name_at_end(name, slot, area, file);
    lemma_model_path(name, slot, area, file);
    if area == AssetArea::Motion {
        lemma_motion_name(entries[i].path);
    }
    (area, file)
}

/// A shown file of a costume is among its files.
proof fn lemma_listed(
    fighter: Seq<char>,
    slot: u8,
    model: Seq<ListedView>,
    motion: Seq<ListedView>,
    area: AssetArea,
    file: Seq<char>,
) -> (k: int)
    requires
        costume_files(fighter, slot, model, motion) is Ok,
        fighter_part(fighter)->Ok_0 != "model"@,
        shows_name(listing(model, motion, area), area, file),
    ensures
        0 <= k < costume_files(fighter, slot, model, motion)->Ok_0.len(),
        ({
            let path = costume_files(fighter, slot, model, motion)->Ok_0[k].game_path;
            &&& last_part(path) == file
            &&& is_model_path(path) == (area == AssetArea::Model)
        }),
{
    broadcast use vstd::seq_lib::group_to_multiset_ensures;

    let name = fighter_part(fighter)->Ok_0;
    let models = shown_files(model, name, slot, AssetArea::Model)->Ok_0;
    let motions = shown_files(motion, name, slot, AssetArea::Motion)->Ok_0;
    let all = models + motions;
    let files = costume_files(fighter, slot, model, motion)->Ok_0;
    let entries = listing(model, motion, area);
    let path = game_path(name, area.part(), slot, file);
    lemma_shown(entries, name, slot, area);
    crate::ordering::law_ordering_keeps_the_items(all, by_game_path());
    let own = shown_files(entries, name, slot, area)->Ok_0;
    let at = choose|at: int| 0 <= at < own.len() && (#[trigger] own[at]).game_path == path;
    let item = own[at];
    if area == AssetArea::Model {
        assert(all[at] == item);
    } else {
        assert(all[models.len() + at] == item);
    }
    assert(all.contains(item));
    assert(files.to_multiset().count(item) > 0);
    let i = choose|i: int| 0 <= i < entries.len() && #[trigger] shows_as(entries[i], area, file);
    crate::workspace::law_asset_names_are_safe(entries[i].path);
    lemma_name_at_end(name, slot, area, file);
    lemma_model_path(name, slot, area, file);
    let k = files.index_of(item);
    assert(files[k] == item);
    k
}

proof fn lemma_motion_paths_differ(
    fighter: Seq<char>,
    slot: u8,
    model: Seq<ListedView>,
    motion: Seq<ListedView>,
    name: Seq<char>,
)
    requires
        costume_files(fighter, slot, model, motion) is Ok,
        fighter_part(fighter)->Ok_0 != "model"@,
        crate::ordering::names_differ(
            costume_files(fighter, slot, model, motion)->Ok_0,
            by_game_path(),
        ),
    ensures
        ({
            let files = costume_files(fighter, slot, model, motion)->Ok_0;
            forall|i: int, j: int|
                0 <= i < j < files.len() ==> !(is_motion_path(
                    (#[trigger] files[i]).game_path,
                    name,
                ) && is_motion_path((#[trigger] files[j]).game_path, name))
        }),
{
    let files = costume_files(fighter, slot, model, motion)->Ok_0;
    assert forall|i: int, j: int| 0 <= i < j < files.len() implies !(is_motion_path(
        (#[trigger] files[i]).game_path,
        name,
    ) && is_motion_path((#[trigger] files[j]).game_path, name)) by {
        let a = lemma_file(fighter, slot, model, motion, i);
        let b = lemma_file(fighter, slot, model, motion, j);
        assert(by_game_path()(files[i]) != by_game_path()(files[j]));
    }
}

proof fn lemma_files_ascend(
    fighter: Seq<char>,
    slot: u8,
    model: Seq<ListedView>,
    motion: Seq<ListedView>,
)
    requires
        costume_files(fighter, slot, model, motion) is Ok,
        crate::ordering::names_differ(
            costume_files(fighter, slot, model, motion)->Ok_0,
            by_game_path(),
        ),
    ensures
        crate::ordering::is_strictly_ordered(
            costume_files(fighter, slot, model, motion)->Ok_0,
            by_game_path(),
        ),
{
    let name = fighter_part(fighter)->Ok_0;
    let files = costume_files(fighter, slot, model, motion)->Ok_0;
    crate::ordering::law_ordering_keeps_the_items(
        shown_files(model, name, slot, AssetArea::Model)->Ok_0 + shown_files(
            motion,
            name,
            slot,
            AssetArea::Motion,
        )->Ok_0,
        by_game_path(),
    );
    assert forall|i: int, j: int| 0 <= i < j < files.len() implies crate::text::before(
        by_game_path()(#[trigger] files[i]),
        by_game_path()(#[trigger] files[j]),
    ) by {
        crate::text::lemma_before_total(by_game_path()(files[i]), by_game_path()(files[j]));
    }
}

proof fn lemma_flag(
    fighter: Seq<char>,
    slot: u8,
    model: Seq<ListedView>,
    motion: Seq<ListedView>,
    name: Seq<char>,
)
    requires
        costume_files(fighter, slot, model, motion) is Ok,
        fighter_part(fighter)->Ok_0 != "model"@,
    ensures
        has_motion_file(costume_files(fighter, slot, model, motion)->Ok_0, name) == shows_name(
            motion,
            AssetArea::Motion,
            name,
        ),
{
    let files = costume_files(fighter, slot, model, motion)->Ok_0;
    if has_motion_file(files, name) {
        let k = choose|k: int|
            0 <= k < files.len() && !is_model_path((#[trigger] files[k]).game_path) && last_part(
                files[k].game_path,
            ) == name;
        let place = lemma_file(fighter, slot, model, motion, k);
    }
    if shows_name(motion, AssetArea::Motion, name) {
        let k = lemma_listed(fighter, slot, model, motion, AssetArea::Motion, name);
        assert(!is_model_path(files[k].game_path));
    }
}

/// The account of a costume's files counts each of them once, where their names differ: the model
/// files and the animations are listed in strict order, under the names of the shown files of
/// their folders, and the two flags tell whether `swing.prc` and `motion_list.bin` are shown. A
/// fighter named `model` is left out, all of whose files would count as model files.
pub proof fn law_inventory_counts_every_file(
    fighter: Seq<char>,
    slot: u8,
    model: Seq<ListedView>,
    motion: Seq<ListedView>,
    inventory: WorkspaceAssetInventory,
)
    requires
        costume_files(fighter, slot, model, motion) is Ok,
        accounts_for(inventory, costume_files(fighter, slot, model, motion)->Ok_0),
        fighter_part(fighter)->Ok_0 != "model"@,
        crate::ordering::names_differ(
            costume_files(fighter, slot, model, motion)->Ok_0,
            by_game_path(),
        ),
    ensures
        ({
            let files = costume_files(fighter, slot, model, motion)->Ok_0;
            let models = crate::text::texts(inventory.model_files@);
            let animations = crate::text::texts(inventory.animations@);
            &&& inventory.total() == files.len()
            &&& crate::ordering::is_strictly_ordered(models, crate::ordering::itself())
            &&& crate::ordering::is_strictly_ordered(animations, crate::ordering::itself())
            &&& forall|name: Seq<char>| #[trigger]
                models.contains(name) <==> shows_name(model, AssetArea::Model, name)
            &&& forall|name: Seq<char>| #[trigger]
                animations.contains(name) <==> shows_name(motion, AssetArea::Motion, name)
                    && crate::text::ends_with(name, ".nuanmb"@)
            &&& inventory.swing_prc == shows_name(motion, AssetArea::Motion, "swing.prc"@)
            &&& inventory.motion_list == shows_name(
                motion,
                AssetArea::Motion,
                "motion_list.bin"@,
            )
        }),
{
    let name = fighter_part(fighter)->Ok_0;
    let files = costume_files(fighter, slot, model, motion)->Ok_0;
    let models = crate::text::texts(inventory.model_files@);
    let animations = crate::text::texts(inventory.animations@);
    let in_model = |p: Seq<char>| is_model_path(p);
    let animated = |p: Seq<char>| is_animation_path(p);
    assert forall|k: int| 0 <= k < files.len() implies {
        let path = (#[trigger] files[k]).game_path;
        ||| is_model_path(path)
        ||| is_animation_path(path)
        ||| is_motion_path(path, "swing.prc"@)
        ||| is_motion_path(path, "motion_list.bin"@)
    } by {
        let place = lemma_file(fighter, slot, model, motion, k);
    }
    lemma_four_kinds(files);
    lemma_motion_paths_differ(fighter, slot, model, motion, "swing.prc"@);
    lemma_motion_paths_differ(fighter, slot, model, motion, "motion_list.bin"@);
    lemma_at_most_one(files, "swing.prc"@);
    lemma_at_most_one(files, "motion_list.bin"@);
    lemma_names_where(files, in_model);
    lemma_names_where(files, animated);
    assert(models == names_where(files, in_model));
    assert(animations == names_where(files, animated));
    lemma_files_ascend(fighter, slot, model, motion);
    assert forall|k: int|
        0 <= k < files.len() && in_model((#[trigger] files[k]).game_path) implies files[k].game_path
        == folder_of(name, AssetArea::Model, slot) + last_part(files[k].game_path) by {
        let place = lemma_file(fighter, slot, model, motion, k);
    }
    lemma_names_ascend(files, in_model, folder_of(name, AssetArea::Model, slot));
    assert forall|k: int|
        0 <= k < files.len() && animated((#[trigger] files[k]).game_path) implies files[k].game_path
        == folder_of(name, AssetArea::Motion, slot) + last_part(files[k].game_path) by {
        let place = lemma_file(fighter, slot, model, motion, k);
    }
    lemma_names_ascend(files, animated, folder_of(name, AssetArea::Motion, slot));
    assert forall|file: Seq<char>| #[trigger] models.contains(file) <==> shows_name(
        model,
        AssetArea::Model,
        file,
    ) by {
        if models.contains(file) {
            let n = models.index_of(file);
            assert(names_where(files, in_model)[n] == file);
            let k = choose|k: int|
                0 <= k < files.len() && in_model((#[trigger] files[k]).game_path) && last_part(
                    files[k].game_path,
                ) == file;
            let place = lemma_file(fighter, slot, model, motion, k);
        }
        if shows_name(model, AssetArea::Model, file) {
            let k = lemma_listed(fighter, slot, model, motion, AssetArea::Model, file);
            assert(in_model(files[k].game_path));
        }
    }
    assert forall|file: Seq<char>| #[trigger] animations.contains(file) <==> shows_name(
        motion,
        AssetArea::Motion,
        file,
    ) && crate::text::ends_with(file, ".nuanmb"@) by {
        if animations.contains(file) {
            let n = animations.index_of(file);
            assert(names_where(files, animated)[n] == file);
            let k = choose|k: int|
                0 <= k < files.len() && animated((#[trigger] files[k]).game_path) && last_part(
                    files[k].game_path,
                ) == file;
            let place = lemma_file(fighter, slot, model, motion, k);
        }
        if shows_name(motion, AssetArea::Motion, file) && crate::text::ends_with(
            file,
            ".nuanmb"@,
        ) {
            let k = lemma_listed(fighter, slot, model, motion, AssetArea::Motion, file);
            assert(animated(files[k].game_path));
        }
    }
    lemma_flag(fighter, slot, model, motion, "swing.prc"@);
    lemma_flag(fighter, slot, model, motion, "motion_list.bin"@);
}

} // verus!
