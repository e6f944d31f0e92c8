//! What the messages to the game say to whoever reads them as JSON.
use crate::link::sending::{
    alias_json, bundle_file_json, bundle_json, donor_bytes_json, donor_json, list_of,
    modifier_edit_json, modifier_json, object_of, slots_json, ModifierTexts,
};
use crate::reader::{
    all_read, at, field, is_plain, is_word, items_in, lemma_decimal_reads, lemma_list_reads,
    lemma_object_four, lemma_object_one, lemma_object_three, lemma_object_two,
    lemma_quoted_list_reads, lemma_quoted_reads, lemma_read, lemma_word_reads, names_in, number_in,
    read, reads_as, text_in, word_in, Tree,
};
use crate::wire::{
    AssetBundleFileWire, AssetBundleWire, DonorBytesWire, DonorEffWire, EffectAliasWire,
};
use vstd::prelude::*;

verus! {

proof fn lemma_regroup(a: Seq<char>, b: Seq<char>, c: Seq<char>)
    ensures
        a + (b + c) == (a + b) + c,
{
    assert(a + (b + c) =~= (a + b) + c);
}

/// `{"name":` and a value are the start of an object.
proof fn lemma_opened(literal: Seq<char>, name: Seq<char>, value: Seq<char>)
    requires
        literal == seq!['{', '"'] + name + seq!['"', ':'],
    ensures
        literal + value == seq!['{'] + field(name, value),
{
    assert(literal + value =~= seq!['{'] + field(name, value));
}

/// `,"name":` and a value are one more member.
proof fn lemma_appended(before: Seq<char>, literal: Seq<char>, name: Seq<char>, value: Seq<char>)
    requires
        literal == seq![',', '"'] + name + seq!['"', ':'],
    ensures
        before + literal + value == before + seq![','] + field(name, value),
{
    assert(before + literal + value =~= before + seq![','] + field(name, value));
}

proof fn lemma_object_of(name: Seq<char>, value: Seq<char>, tree: Tree)
    requires
        is_plain(name),
        reads_as(value, tree),
    ensures
        at(read(object_of(name, value)), name) == Some(tree),
        names_in(read(object_of(name, value))) == set![name],
{
    reveal_strlit("{\"");
    reveal_strlit("\":");
    reveal_strlit("}");
    lemma_object_one(name, value, tree);
    assert(object_of(name, value) =~= seq!['{'] + field(name, value) + seq!['}']);
    lemma_read(object_of(name, value), Tree::Object(seq![(name, tree)]));
}

/// A message that replaces a list carries just that list, under the name of its family.
pub proof fn law_replacements_carry_their_list(name: Seq<char>, value: Seq<char>, tree: Tree)
    requires
        is_plain(name),
        reads_as(value, tree),
    ensures
        at(read(object_of(name, value)), name) == Some(tree),
        names_in(read(object_of(name, value))) == set![name],
{
    lemma_object_of(name, value, tree);
}

// ── Edits of an effect kind ──────────────────────────────────────────────────

proof fn lemma_color(form: ModifierTexts) -> (tree: Tree)
    requires
        is_word(form.red@),
        is_word(form.green@),
        is_word(form.blue@),
        is_word(form.alpha@),
    ensures
        reads_as(
            seq!['{'] + field("alpha"@, form.alpha@) + seq![','] + field("blue"@, form.blue@)
                + seq![','] + field("green"@, form.green@) + seq![','] + field("red"@, form.red@)
                + seq!['}'],
            tree,
        ),
        word_in(at(Some(tree), "red"@)) == Some(form.red@),
        word_in(at(Some(tree), "green"@)) == Some(form.green@),
        word_in(at(Some(tree), "blue"@)) == Some(form.blue@),
        word_in(at(Some(tree), "alpha"@)) == Some(form.alpha@),
        names_in(Some(tree)) == set!["alpha"@, "blue"@, "green"@, "red"@],
{
    reveal_strlit("alpha");
    reveal_strlit("blue");
    reveal_strlit("green");
    reveal_strlit("red");
    lemma_word_reads(form.red@);
    lemma_word_reads(form.green@);
    lemma_word_reads(form.blue@);
    lemma_word_reads(form.alpha@);
    assert("alpha"@[0] != "green"@[0]);
    lemma_object_four(
        "alpha"@,
        form.alpha@,
        Tree::Word(form.alpha@),
        "blue"@,
        form.blue@,
        Tree::Word(form.blue@),
        "green"@,
        form.green@,
        Tree::Word(form.green@),
        "red"@,
        form.red@,
        Tree::Word(form.red@),
    );
    Tree::Object(
        seq![
            ("alpha"@, Tree::Word(form.alpha@)),
            ("blue"@, Tree::Word(form.blue@)),
            ("green"@, Tree::Word(form.green@)),
            ("red"@, Tree::Word(form.red@)),
        ],
    )
}

/// The numbers of the form are JSON numbers.
pub open spec fn has_numbers(form: ModifierTexts) -> bool {
    is_word(form.speed@) && is_word(form.red@) && is_word(form.green@) && is_word(form.blue@)
        && is_word(form.alpha@) && is_word(form.scale@)
}

/// What an edit changes, as it is read: each channel of the tint under its own name, the speed,
/// the scale exactly where it is asked for, and nothing else.
pub proof fn law_modifier_reads_back(form: ModifierTexts, include_scale: bool)
    requires
        has_numbers(form),
    ensures
        ({
            let said = read(modifier_json(form, include_scale));
            let rainbow = at(said, "rainbow"@);
            let color = at(rainbow, "color"@);
            &&& word_in(at(color, "red"@)) == Some(form.red@)
            &&& word_in(at(color, "green"@)) == Some(form.green@)
            &&& word_in(at(color, "blue"@)) == Some(form.blue@)
            &&& word_in(at(color, "alpha"@)) == Some(form.alpha@)
            &&& names_in(color) == set!["alpha"@, "blue"@, "green"@, "red"@]
            &&& names_in(rainbow) == set!["color"@]
            &&& word_in(at(said, "speed"@)) == Some(form.speed@)
            &&& include_scale ==> word_in(at(said, "scale"@)) == Some(form.scale@)
            &&& names_in(said) == if include_scale {
                set!["rainbow"@, "scale"@, "speed"@]
            } else {
                set!["rainbow"@, "speed"@]
            }
        }),
{
    let color = lemma_color(form);
    let inner = color_text(form);
    assert("scale"@ != "speed"@ && "rainbow"@ != "speed"@ && "rainbow"@ != "scale"@) by {
        reveal_strlit("rainbow");
        reveal_strlit("scale");
        reveal_strlit("speed");
        assert("scale"@[1] != "speed"@[1]);
        assert("rainbow"@[0] != "speed"@[0]);
        assert("rainbow"@[0] != "scale"@[0]);
    }
    assert(is_plain("color"@) && is_plain("rainbow"@) && is_plain("scale"@) && is_plain(
        "speed"@,
    )) by {
        reveal_strlit("color");
        reveal_strlit("rainbow");
        reveal_strlit("scale");
        reveal_strlit("speed");
    }
    lemma_object_one("color"@, inner, color);
    let outer = seq!['{'] + field("color"@, inner) + seq!['}'];
    let rainbow = Tree::Object(seq![("color"@, color)]);
    lemma_word_reads(form.speed@);
    lemma_word_reads(form.scale@);
    let speed = Tree::Word(form.speed@);
    let scale = Tree::Word(form.scale@);
    lemma_modifier_text(form, include_scale);
    if include_scale {
        lemma_object_three(
            "rainbow"@,
            outer,
            rainbow,
            "scale"@,
            form.scale@,
            scale,
            "speed"@,
            form.speed@,
            speed,
        );
        lemma_read(
            modifier_json(form, true),
            Tree::Object(seq![("rainbow"@, rainbow), ("scale"@, scale), ("speed"@, speed)]),
        );
    } else {
        lemma_object_two("rainbow"@, outer, rainbow, "speed"@, form.speed@, speed);
        lemma_read(
            modifier_json(form, false),
            Tree::Object(seq![("rainbow"@, rainbow), ("speed"@, speed)]),
        );
    }
}

/// The tint as an object.
spec fn color_text(form: ModifierTexts) -> Seq<char> {
    seq!['{'] + field("alpha"@, form.alpha@) + seq![','] + field("blue"@, form.blue@) + seq![',']
        + field("green"@, form.green@) + seq![','] + field("red"@, form.red@) + seq!['}']
}

/// What stands before the tint.
spec fn before_color() -> Seq<char> {
    (seq!['{'] + (seq!['"'] + "rainbow"@ + seq!['"', ':'])) + (seq!['{'] + (seq!['"'] + "color"@
        + seq!['"', ':']))
}

proof fn lemma_modifier_start()
    ensures
        "{\"rainbow\":{\"color\":{\"alpha\":"@ == before_color() + (seq!['{'] + (seq!['"']
            + "alpha"@ + seq!['"', ':'])),
{
    reveal_strlit("rainbow");
    reveal_strlit("color");
    reveal_strlit("alpha");
    reveal_strlit("{\"rainbow\":{\"color\":{\"alpha\":");
    assert("{\"rainbow\":{\"color\":{\"alpha\":"@ =~= before_color() + (seq!['{'] + (seq!['"']
        + "alpha"@ + seq!['"', ':'])));
}

proof fn lemma_modifier_names()
    ensures
        ",\"blue\":"@ == seq![',', '"'] + "blue"@ + seq!['"', ':'],
        ",\"green\":"@ == seq![',', '"'] + "green"@ + seq!['"', ':'],
        ",\"red\":"@ == seq![',', '"'] + "red"@ + seq!['"', ':'],
        ",\"scale\":"@ == seq![',', '"'] + "scale"@ + seq!['"', ':'],
        ",\"speed\":"@ == seq![',', '"'] + "speed"@ + seq!['"', ':'],
        "}}"@ == seq!['}'] + seq!['}'],
        "}"@ == seq!['}'],
{
    reveal_strlit("blue");
    reveal_strlit("green");
    reveal_strlit("red");
    reveal_strlit("scale");
    reveal_strlit("speed");
    reveal_strlit(",\"blue\":");
    reveal_strlit(",\"green\":");
    reveal_strlit(",\"red\":");
    reveal_strlit(",\"scale\":");
    reveal_strlit(",\"speed\":");
    reveal_strlit("}}");
    reveal_strlit("}");
    assert(",\"blue\":"@ =~= seq![',', '"'] + "blue"@ + seq!['"', ':']);
    assert(",\"green\":"@ =~= seq![',', '"'] + "green"@ + seq!['"', ':']);
    assert(",\"red\":"@ =~= seq![',', '"'] + "red"@ + seq!['"', ':']);
    assert(",\"scale\":"@ =~= seq![',', '"'] + "scale"@ + seq!['"', ':']);
    assert(",\"speed\":"@ =~= seq![',', '"'] + "speed"@ + seq!['"', ':']);
    assert("}}"@ =~= seq!['}'] + seq!['}']);
    assert("}"@ =~= seq!['}']);
}

/// The tint as it is written is an object inside an object.
proof fn lemma_color_text(form: ModifierTexts)
    ensures
        "{\"rainbow\":{\"color\":{\"alpha\":"@ + form.alpha@ + ",\"blue\":"@ + form.blue@
            + ",\"green\":"@ + form.green@ + ",\"red\":"@ + form.red@ + "}}"@ == seq!['{'] + field(
            "rainbow"@,
            seq!['{'] + field("color"@, color_text(form)) + seq!['}'],
        ),
{
    let p = before_color();
    let a = seq!['"'] + "alpha"@ + seq!['"', ':'];
    let k = seq![','];
    let e = seq!['}'];
    let (fb, fg, fr) = (
        field("blue"@, form.blue@),
        field("green"@, form.green@),
        field("red"@, form.red@),
    );
    lemma_modifier_start();
    lemma_modifier_names();
    // As it is written, member by member.
    let t0 = "{\"rainbow\":{\"color\":{\"alpha\":"@ + form.alpha@;
    let t1 = t0 + ",\"blue\":"@ + form.blue@;
    let t2 = t1 + ",\"green\":"@ + form.green@;
    let t3 = t2 + ",\"red\":"@ + form.red@;
    lemma_appended(t0, ",\"blue\":"@, "blue"@, form.blue@);
    lemma_appended(t1, ",\"green\":"@, "green"@, form.green@);
    lemma_appended(t2, ",\"red\":"@, "red"@, form.red@);
    lemma_regroup(t3, e, e);
    // As an object, behind what stands before it.
    let c0 = seq!['{'] + field("alpha"@, form.alpha@);
    let c1 = c0 + k + fb;
    let c2 = c1 + k + fg;
    let c3 = c2 + k + fr;
    lemma_regroup(seq!['{'], a, form.alpha@);
    lemma_regroup(p, seq!['{'] + a, form.alpha@);
    assert(p + c0 == t0);
    lemma_regroup(p, c0, k);
    lemma_regroup(p, c0 + k, fb);
    assert(p + c1 == t1);
    lemma_regroup(p, c1, k);
    lemma_regroup(p, c1 + k, fg);
    assert(p + c2 == t2);
    lemma_regroup(p, c2, k);
    lemma_regroup(p, c2 + k, fr);
    assert(p + c3 == t3);
    lemma_regroup(p, c3, e);
    let color = color_text(form);
    assert(color == c3 + e);
    assert(p + color == t3 + e);
    // What stands before it opens the two objects.
    let (rainbow, inner) = (
        seq!['"'] + "rainbow"@ + seq!['"', ':'],
        seq!['"'] + "color"@ + seq!['"', ':'],
    );
    let (x, y) = (seq!['{'] + rainbow, seq!['{'] + inner);
    lemma_regroup(seq!['{'], inner, color);
    lemma_regroup(x, y, color);
    lemma_regroup(x, y + color, e);
    lemma_regroup(seq!['{'], rainbow, (y + color) + e);
}

proof fn lemma_modifier_text(form: ModifierTexts, include_scale: bool)
    ensures
        ({
            let outer = seq!['{'] + field("color"@, color_text(form)) + seq!['}'];
            modifier_json(form, include_scale) == if include_scale {
                seq!['{'] + field("rainbow"@, outer) + seq![','] + field("scale"@, form.scale@)
                    + seq![','] + field("speed"@, form.speed@) + seq!['}']
            } else {
                seq!['{'] + field("rainbow"@, outer) + seq![','] + field("speed"@, form.speed@)
                    + seq!['}']
            }
        }),
{
    lemma_color_text(form);
    lemma_modifier_names();
    let outer = seq!['{'] + field("color"@, color_text(form)) + seq!['}'];
    let head = seq!['{'] + field("rainbow"@, outer);
    lemma_appended(head, ",\"scale\":"@, "scale"@, form.scale@);
    let scaled = head + seq![','] + field("scale"@, form.scale@);
    lemma_appended(head, ",\"speed\":"@, "speed"@, form.speed@);
    lemma_appended(scaled, ",\"speed\":"@, "speed"@, form.speed@);
}

/// An edit names its effect kind, and carries what it changes as a text that holds JSON.
pub proof fn law_modifier_edit_reads_back(id: u64, form: ModifierTexts, include_scale: bool)
    ensures
        ({
            let said = read(modifier_edit_json(id, form, include_scale));
            &&& number_in(at(said, "id"@)) == Some(id as int)
            &&& text_in(at(said, "newValue"@)) == Some(modifier_json(form, include_scale))
            &&& names_in(said) == set!["id"@, "newValue"@]
        }),
{
    let inner = modifier_json(form, include_scale);
    lemma_decimal_reads(id as nat);
    lemma_quoted_reads(inner);
    let number = crate::text::decimal(id as nat);
    let value = crate::json::quoted(inner);
    reveal_strlit("id");
    reveal_strlit("newValue");
    assert("id"@[0] != "newValue"@[0]);
    assert("{\"id\":"@ == seq!['{', '"'] + "id"@ + seq!['"', ':']) by {
        reveal_strlit("{\"id\":");
        assert("{\"id\":"@ =~= seq!['{', '"'] + "id"@ + seq!['"', ':']);
    }
    assert(",\"newValue\":"@ == seq![',', '"'] + "newValue"@ + seq!['"', ':']) by {
        reveal_strlit(",\"newValue\":");
        assert(",\"newValue\":"@ =~= seq![',', '"'] + "newValue"@ + seq!['"', ':']);
    }
    assert("}"@ == seq!['}']) by {
        reveal_strlit("}");
        assert("}"@ =~= seq!['}']);
    }
    lemma_opened("{\"id\":"@, "id"@, number);
    lemma_appended("{\"id\":"@ + number, ",\"newValue\":"@, "newValue"@, value);
    lemma_object_two("id"@, number, Tree::Word(number), "newValue"@, value, Tree::Text(inner));
    assert(modifier_edit_json(id, form, include_scale) == seq!['{'] + field("id"@, number)
        + seq![','] + field("newValue"@, value) + seq!['}']);
    lemma_read(
        modifier_edit_json(id, form, include_scale),
        Tree::Object(seq![("id"@, Tree::Word(number)), ("newValue"@, Tree::Text(inner))]),
    );
}

// ── Asset bundles ────────────────────────────────────────────────────────────

/// The value says what the file of a bundle is.
pub open spec fn says_file(tree: Tree, file: AssetBundleFileWire) -> bool {
    &&& text_in(at(Some(tree), "path"@)) == Some(file.path@)
    &&& text_in(at(Some(tree), "file"@)) == Some(file.file@)
    &&& number_in(at(Some(tree), "size"@)) == Some(file.size as int)
    &&& names_in(Some(tree)) == set!["file"@, "path"@, "size"@]
}

proof fn lemma_bundle_file(file: AssetBundleFileWire) -> (tree: Tree)
    ensures
        reads_as(bundle_file_json(file), tree),
        says_file(tree, file),
{
    let (a, b) = (crate::json::quoted(file.file@), crate::json::quoted(file.path@));
    let c = crate::text::decimal(file.size as nat);
    lemma_quoted_reads(file.file@);
    lemma_quoted_reads(file.path@);
    lemma_decimal_reads(file.size as nat);
    reveal_strlit("file");
    reveal_strlit("path");
    reveal_strlit("size");
    assert("{\"file\":"@ == seq!['{', '"'] + "file"@ + seq!['"', ':']) by {
        reveal_strlit("{\"file\":");
        assert("{\"file\":"@ =~= seq!['{', '"'] + "file"@ + seq!['"', ':']);
    }
    assert(",\"path\":"@ == seq![',', '"'] + "path"@ + seq!['"', ':']) by {
        reveal_strlit(",\"path\":");
        assert(",\"path\":"@ =~= seq![',', '"'] + "path"@ + seq!['"', ':']);
    }
    assert(",\"size\":"@ == seq![',', '"'] + "size"@ + seq!['"', ':']) by {
        reveal_strlit(",\"size\":");
        assert(",\"size\":"@ =~= seq![',', '"'] + "size"@ + seq!['"', ':']);
    }
    assert("}"@ == seq!['}']) by {
        reveal_strlit("}");
        assert("}"@ =~= seq!['}']);
    }
    lemma_opened("{\"file\":"@, "file"@, a);
    lemma_appended("{\"file\":"@ + a, ",\"path\":"@, "path"@, b);
    lemma_appended("{\"file\":"@ + a + ",\"path\":"@ + b, ",\"size\":"@, "size"@, c);
    assert("file"@[0] != "path"@[0] && "file"@[0] != "size"@[0] && "path"@[0] != "size"@[0]);
    lemma_object_three(
        "file"@,
        a,
        Tree::Text(file.file@),
        "path"@,
        b,
        Tree::Text(file.path@),
        "size"@,
        c,
        Tree::Word(c),
    );
    assert(bundle_file_json(file) == seq!['{'] + field("file"@, a) + seq![','] + field("path"@, b)
        + seq![','] + field("size"@, c) + seq!['}']);
    Tree::Object(
        seq![
            ("file"@, Tree::Text(file.file@)),
            ("path"@, Tree::Text(file.path@)),
            ("size"@, Tree::Word(c)),
        ],
    )
}

proof fn lemma_bundle_files(files: Seq<AssetBundleFileWire>) -> (trees: Seq<Tree>)
    ensures
        trees.len() == files.len(),
        all_read(Seq::new(files.len(), |i: int| bundle_file_json(files[i])), trees),
        forall|i: int| 0 <= i < files.len() ==> says_file(#[trigger] trees[i], files[i]),
    decreases files.len(),
{
    if files.len() == 0 {
        Seq::empty()
    } else {
        let before = lemma_bundle_files(files.drop_last());
        let last = lemma_bundle_file(files.last());
        let trees = before.push(last);
        let parts = Seq::new(files.len(), |i: int| bundle_file_json(files[i]));
        let head = Seq::new(
            files.drop_last().len(),
            |i: int| bundle_file_json(files.drop_last()[i]),
        );
        assert forall|i: int| 0 <= i < parts.len() implies reads_as(
            #[trigger] parts[i],
            trees[i],
        ) by {
            if i < before.len() {
                assert(parts[i] == head[i]);
            }
        }
        assert forall|i: int| 0 <= i < files.len() implies says_file(
            #[trigger] trees[i],
            files[i],
        ) by {
            if i < before.len() {
                assert(trees[i] == before[i]);
                assert(files[i] == files.drop_last()[i]);
            }
        }
        trees
    }
}

/// A bundle is read as it is: its target, its generation, and each of its files in order with
/// the path that it replaces, the file that it comes from and its size.
pub proof fn law_asset_bundle_reads_back(bundle: AssetBundleWire, i: int)
    ensures
        ({
            let said = at(
                read(object_of("asset_bundle"@, bundle_json(bundle))),
                "asset_bundle"@,
            );
            let files = items_in(at(said, "files"@));
            &&& number_in(at(said, "generation"@)) == Some(bundle.generation as int)
            &&& text_in(at(said, "target"@)) == Some(bundle.target@)
            &&& number_in(at(said, "fighter_binding_version"@)) == Some(1int)
            &&& names_in(said) == set![
                "fighter_binding_version"@,
                "files"@,
                "generation"@,
                "target"@,
            ]
            &&& files is Some
            &&& files->Some_0.len() == bundle.files@.len()
            &&& 0 <= i < bundle.files@.len() ==> says_file(files->Some_0[i], bundle.files@[i])
        }),
{
    let trees = lemma_bundle_files(bundle.files@);
    let parts = Seq::new(bundle.files@.len(), |k: int| bundle_file_json(bundle.files@[k]));
    lemma_list_reads(parts, trees);
    let list = list_of(parts);
    let number = crate::text::decimal(bundle.generation as nat);
    let target = crate::json::quoted(bundle.target@);
    lemma_decimal_reads(bundle.generation as nat);
    lemma_decimal_reads(1);
    lemma_quoted_reads(bundle.target@);
    let one = crate::text::decimal(1);
    assert(one =~= seq!['1']);
    reveal_strlit("fighter_binding_version");
    reveal_strlit("files");
    reveal_strlit("generation");
    reveal_strlit("target");
    reveal_strlit("asset_bundle");
    assert("files"@.len() == 5 && "fighter_binding_version"@.len() == 23);
    assert("generation"@[0] != "target"@[0] && "files"@[0] != "target"@[0]);
    assert("files"@[0] != "generation"@[0]);
    assert("fighter_binding_version"@[0] == 'f');
    lemma_object_four(
        "fighter_binding_version"@,
        one,
        Tree::Word(one),
        "files"@,
        list,
        Tree::List(trees),
        "generation"@,
        number,
        Tree::Word(number),
        "target"@,
        target,
        Tree::Text(bundle.target@),
    );
    let tree = Tree::Object(
        seq![
            ("fighter_binding_version"@, Tree::Word(one)),
            ("files"@, Tree::List(trees)),
            ("generation"@, Tree::Word(number)),
            ("target"@, Tree::Text(bundle.target@)),
        ],
    );
    let start = seq!['{'] + field("fighter_binding_version"@, one);
    let files = seq![',', '"'] + "files"@ + seq!['"', ':'];
    assert("{\"fighter_binding_version\":1,\"files\":"@ == start + files) by {
        reveal_strlit("{\"fighter_binding_version\":1,\"files\":");
        assert("{\"fighter_binding_version\":1,\"files\":"@ =~= start + files);
    }
    assert(",\"generation\":"@ == seq![',', '"'] + "generation"@ + seq!['"', ':']) by {
        reveal_strlit(",\"generation\":");
        assert(",\"generation\":"@ =~= seq![',', '"'] + "generation"@ + seq!['"', ':']);
    }
    assert(",\"target\":"@ == seq![',', '"'] + "target"@ + seq!['"', ':']) by {
        reveal_strlit(",\"target\":");
        assert(",\"target\":"@ =~= seq![',', '"'] + "target"@ + seq!['"', ':']);
    }
    assert("}"@ == seq!['}']) by {
        reveal_strlit("}");
        assert("}"@ =~= seq!['}']);
    }
    lemma_appended(start, files, "files"@, list);
    let second = start + files + list;
    lemma_appended(second, ",\"generation\":"@, "generation"@, number);
    let third = second + ",\"generation\":"@ + number;
    lemma_appended(third, ",\"target\":"@, "target"@, target);
    assert(bundle_json(bundle) == third + ",\"target\":"@ + target + "}"@);
    assert(bundle_json(bundle) == start + seq![','] + field("files"@, list) + seq![','] + field(
        "generation"@,
        number,
    ) + seq![','] + field("target"@, target) + seq!['}']);
    lemma_object_of("asset_bundle"@, bundle_json(bundle), tree);
}

// ── Aliases ──────────────────────────────────────────────────────────────────

/// The value is a list of these numbers.
pub open spec fn says_numbers(tree: Option<Tree>, numbers: Seq<u8>) -> bool {
    &&& items_in(tree) is Some
    &&& items_in(tree)->Some_0.len() == numbers.len()
    &&& forall|i: int|
        0 <= i < numbers.len() ==> number_in(Some(#[trigger] items_in(tree)->Some_0[i])) == Some(
            numbers[i] as int,
        )
}

/// The value says what an alias is: its two effects, and its slots unless it applies to all.
pub open spec fn says_alias(tree: Tree, alias: EffectAliasWire) -> bool {
    &&& number_in(at(Some(tree), "from"@)) == Some(alias.from as int)
    &&& number_in(at(Some(tree), "to"@)) == Some(alias.to as int)
    &&& if alias.slots@.len() > 0 {
        says_numbers(at(Some(tree), "slots"@), alias.slots@) && names_in(Some(tree)) == set![
            "from"@,
            "slots"@,
            "to"@,
        ]
    } else {
        names_in(Some(tree)) == set!["from"@, "to"@]
    }
}

proof fn lemma_slots(slots: Seq<u8>) -> (tree: Tree)
    ensures
        reads_as(slots_json(slots), tree),
        says_numbers(Some(tree), slots),
{
    let parts = Seq::new(slots.len(), |i: int| crate::text::decimal(slots[i] as nat));
    let trees = Seq::new(slots.len(), |i: int| Tree::Word(crate::text::decimal(slots[i] as nat)));
    assert forall|i: int| 0 <= i < parts.len() implies reads_as(#[trigger] parts[i], trees[i]) by {
        lemma_decimal_reads(slots[i] as nat);
    }
    lemma_list_reads(parts, trees);
    assert forall|i: int| 0 <= i < slots.len() implies number_in(
        Some(#[trigger] items_in(Some(Tree::List(trees)))->Some_0[i]),
    ) == Some(slots[i] as int) by {
        lemma_decimal_reads(slots[i] as nat);
    }
    Tree::List(trees)
}

/// An alias is read as it is.
pub proof fn law_alias_reads_back(alias: EffectAliasWire) -> (tree: Tree)
    ensures
        reads_as(alias_json(alias), tree),
        says_alias(tree, alias),
{
    let (from, to) = (crate::text::decimal(alias.from as nat), crate::text::decimal(alias.to as nat));
    lemma_decimal_reads(alias.from as nat);
    lemma_decimal_reads(alias.to as nat);
    let slots = lemma_slots(alias.slots@);
    reveal_strlit("from");
    reveal_strlit("slots");
    reveal_strlit("to");
    assert("{\"from\":"@ == seq!['{', '"'] + "from"@ + seq!['"', ':']) by {
        reveal_strlit("{\"from\":");
        assert("{\"from\":"@ =~= seq!['{', '"'] + "from"@ + seq!['"', ':']);
    }
    assert(",\"slots\":"@ == seq![',', '"'] + "slots"@ + seq!['"', ':']) by {
        reveal_strlit(",\"slots\":");
        assert(",\"slots\":"@ =~= seq![',', '"'] + "slots"@ + seq!['"', ':']);
    }
    assert(",\"to\":"@ == seq![',', '"'] + "to"@ + seq!['"', ':']) by {
        reveal_strlit(",\"to\":");
        assert(",\"to\":"@ =~= seq![',', '"'] + "to"@ + seq!['"', ':']);
    }
    assert("}"@ == seq!['}']) by {
        reveal_strlit("}");
        assert("}"@ =~= seq!['}']);
    }
    let head = "{\"from\":"@ + from;
    let slotted = head + ",\"slots\":"@ + slots_json(alias.slots@);
    lemma_opened("{\"from\":"@, "from"@, from);
    lemma_appended(head, ",\"slots\":"@, "slots"@, slots_json(alias.slots@));
    lemma_appended(head, ",\"to\":"@, "to"@, to);
    lemma_appended(slotted, ",\"to\":"@, "to"@, to);
    assert("from"@[0] != "slots"@[0] && "from"@[0] != "to"@[0] && "slots"@[0] != "to"@[0]);
    if alias.slots@.len() > 0 {
        lemma_object_three(
            "from"@,
            from,
            Tree::Word(from),
            "slots"@,
            slots_json(alias.slots@),
            slots,
            "to"@,
            to,
            Tree::Word(to),
        );
        assert(alias_json(alias) == seq!['{'] + field("from"@, from) + seq![','] + field(
            "slots"@,
            slots_json(alias.slots@),
        ) + seq![','] + field("to"@, to) + seq!['}']);
        Tree::Object(
            seq![("from"@, Tree::Word(from)), ("slots"@, slots), ("to"@, Tree::Word(to))],
        )
    } else {
        lemma_object_two("from"@, from, Tree::Word(from), "to"@, to, Tree::Word(to));
        assert(alias_json(alias) == seq!['{'] + field("from"@, from) + seq![','] + field("to"@, to)
            + seq!['}']);
        Tree::Object(seq![("from"@, Tree::Word(from)), ("to"@, Tree::Word(to))])
    }
}

// ── Donors ───────────────────────────────────────────────────────────────────

/// The value is a list of these texts.
pub open spec fn says_texts(tree: Option<Tree>, texts: Seq<Seq<char>>) -> bool {
    &&& items_in(tree) is Some
    &&& items_in(tree)->Some_0.len() == texts.len()
    &&& forall|i: int|
        0 <= i < texts.len() ==> text_in(Some(#[trigger] items_in(tree)->Some_0[i])) == Some(
            texts[i],
        )
}

/// The value says what a target's donors are.
pub open spec fn says_donor(tree: Tree, spec: DonorEffWire) -> bool {
    &&& text_in(at(Some(tree), "target"@)) == Some(spec.target@)
    &&& says_texts(at(Some(tree), "donors"@), crate::text::texts(spec.donors@))
    &&& names_in(Some(tree)) == set!["donors"@, "target"@]
}

/// A target with its donors is read as it is.
pub proof fn law_donor_reads_back(spec: DonorEffWire) -> (tree: Tree)
    ensures
        reads_as(donor_json(spec), tree),
        says_donor(tree, spec),
{
    let names = crate::text::texts(spec.donors@);
    let donors = crate::json::quoted_list(names);
    let target = crate::json::quoted(spec.target@);
    let list = Tree::List(Seq::new(names.len(), |i: int| Tree::Text(names[i])));
    lemma_quoted_list_reads(names);
    lemma_quoted_reads(spec.target@);
    reveal_strlit("donors");
    reveal_strlit("target");
    assert("{\"donors\":"@ == seq!['{', '"'] + "donors"@ + seq!['"', ':']) by {
        reveal_strlit("{\"donors\":");
        assert("{\"donors\":"@ =~= seq!['{', '"'] + "donors"@ + seq!['"', ':']);
    }
    assert(",\"target\":"@ == seq![',', '"'] + "target"@ + seq!['"', ':']) by {
        reveal_strlit(",\"target\":");
        assert(",\"target\":"@ =~= seq![',', '"'] + "target"@ + seq!['"', ':']);
    }
    assert("}"@ == seq!['}']) by {
        reveal_strlit("}");
        assert("}"@ =~= seq!['}']);
    }
    lemma_opened("{\"donors\":"@, "donors"@, donors);
    lemma_appended("{\"donors\":"@ + donors, ",\"target\":"@, "target"@, target);
    assert("donors"@[0] != "target"@[0]);
    lemma_object_two("donors"@, donors, list, "target"@, target, Tree::Text(spec.target@));
    assert(donor_json(spec) == seq!['{'] + field("donors"@, donors) + seq![','] + field(
        "target"@,
        target,
    ) + seq!['}']);
    Tree::Object(seq![("donors"@, list), ("target"@, Tree::Text(spec.target@))])
}

/// The value says what a donor payload is: its path, and the bytes and the file where it has
/// them.
pub open spec fn says_payload(tree: Tree, donor: DonorBytesWire) -> bool {
    &&& text_in(at(Some(tree), "path"@)) == Some(donor.path@)
    &&& names_in(Some(tree)).contains("b64"@) == (donor.b64@.len() > 0)
    &&& names_in(Some(tree)).contains("file"@) == (donor.file@.len() > 0)
    &&& donor.b64@.len() > 0 ==> text_in(at(Some(tree), "b64"@)) == Some(donor.b64@)
    &&& donor.file@.len() > 0 ==> text_in(at(Some(tree), "file"@)) == Some(donor.file@)
}

proof fn lemma_payload_text(donor: DonorBytesWire)
    ensures
        ({
            let b64 = field("b64"@, crate::json::quoted(donor.b64@));
            let file = field("file"@, crate::json::quoted(donor.file@));
            let path = field("path"@, crate::json::quoted(donor.path@));
            let text = donor_bytes_json(donor);
            if donor.b64@.len() > 0 && donor.file@.len() > 0 {
                text == seq!['{'] + b64 + seq![','] + file + seq![','] + path + seq!['}']
            } else if donor.b64@.len() > 0 {
                text == seq!['{'] + b64 + seq![','] + path + seq!['}']
            } else if donor.file@.len() > 0 {
                text == seq!['{'] + file + seq![','] + path + seq!['}']
            } else {
                text == seq!['{'] + path + seq!['}']
            }
        }),
{
    let (a, b, c) = (
        crate::json::quoted(donor.b64@),
        crate::json::quoted(donor.file@),
        crate::json::quoted(donor.path@),
    );
    assert("\"b64\":"@ == seq!['"'] + "b64"@ + seq!['"', ':']) by {
        reveal_strlit("b64");
        reveal_strlit("\"b64\":");
        assert("\"b64\":"@ =~= seq!['"'] + "b64"@ + seq!['"', ':']);
    }
    assert("\"file\":"@ == seq!['"'] + "file"@ + seq!['"', ':']) by {
        reveal_strlit("file");
        reveal_strlit("\"file\":");
        assert("\"file\":"@ =~= seq!['"'] + "file"@ + seq!['"', ':']);
    }
    assert("\"path\":"@ == seq!['"'] + "path"@ + seq!['"', ':']) by {
        reveal_strlit("path");
        reveal_strlit("\"path\":");
        assert("\"path\":"@ =~= seq!['"'] + "path"@ + seq!['"', ':']);
    }
    assert("{"@ == seq!['{'] && ","@ == seq![','] && "}"@ == seq!['}']) by {
        reveal_strlit("{");
        reveal_strlit(",");
        reveal_strlit("}");
        assert("{"@ =~= seq!['{']);
        assert(","@ =~= seq![',']);
        assert("}"@ =~= seq!['}']);
    }
    let first = if donor.b64@.len() > 0 {
        "{"@ + "\"b64\":"@ + a + ","@
    } else {
        "{"@
    };
    let second = if donor.file@.len() > 0 {
        first + "\"file\":"@ + b + ","@
    } else {
        first
    };
    lemma_regroup("{"@, "\"b64\":"@, a);
    lemma_regroup(first, "\"file\":"@, b);
    lemma_regroup(second, "\"path\":"@, c);
}

/// A donor payload is read as it is.
pub proof fn law_payload_reads_back(donor: DonorBytesWire) -> (tree: Tree)
    ensures
        reads_as(donor_bytes_json(donor), tree),
        says_payload(tree, donor),
{
    let (a, b, c) = (
        crate::json::quoted(donor.b64@),
        crate::json::quoted(donor.file@),
        crate::json::quoted(donor.path@),
    );
    let (x, y, z) = (Tree::Text(donor.b64@), Tree::Text(donor.file@), Tree::Text(donor.path@));
    lemma_quoted_reads(donor.b64@);
    lemma_quoted_reads(donor.file@);
    lemma_quoted_reads(donor.path@);
    reveal_strlit("b64");
    reveal_strlit("file");
    reveal_strlit("path");
    lemma_payload_text(donor);
    assert("b64"@[0] != "file"@[0] && "b64"@[0] != "path"@[0] && "file"@[0] != "path"@[0]);
    let text = donor_bytes_json(donor);
    if donor.b64@.len() > 0 && donor.file@.len() > 0 {
        lemma_object_three("b64"@, a, x, "file"@, b, y, "path"@, c, z);
        assert(text == seq!['{'] + field("b64"@, a) + seq![','] + field("file"@, b) + seq![',']
            + field("path"@, c) + seq!['}']);
        Tree::Object(seq![("b64"@, x), ("file"@, y), ("path"@, z)])
    } else if donor.b64@.len() > 0 {
        lemma_object_two("b64"@, a, x, "path"@, c, z);
        assert(text == seq!['{'] + field("b64"@, a) + seq![','] + field("path"@, c) + seq!['}']);
        Tree::Object(seq![("b64"@, x), ("path"@, z)])
    } else if donor.file@.len() > 0 {
        lemma_object_two("file"@, b, y, "path"@, c, z);
        assert(text == seq!['{'] + field("file"@, b) + seq![','] + field("path"@, c) + seq!['}']);
        Tree::Object(seq![("file"@, y), ("path"@, z)])
    } else {
        lemma_object_one("path"@, c, z);
        assert(text == seq!['{'] + field("path"@, c) + seq!['}']);
        Tree::Object(seq![("path"@, z)])
    }
}

// ── Whole lists ──────────────────────────────────────────────────────────────

/// All aliases are read as they are, in order.
pub proof fn law_aliases_read_back(aliases: Seq<EffectAliasWire>, i: int)
    ensures
        ({
            let text = list_of(Seq::new(aliases.len(), |k: int| alias_json(aliases[k])));
            let items = items_in(at(read(object_of("effect_aliases"@, text)), "effect_aliases"@));
            &&& items is Some
            &&& items->Some_0.len() == aliases.len()
            &&& 0 <= i < aliases.len() ==> says_alias(items->Some_0[i], aliases[i])
        }),
{
    let trees = lemma_aliases(aliases);
    let parts = Seq::new(aliases.len(), |k: int| alias_json(aliases[k]));
    lemma_list_reads(parts, trees);
    reveal_strlit("effect_aliases");
    lemma_object_of("effect_aliases"@, list_of(parts), Tree::List(trees));
}

proof fn lemma_aliases(aliases: Seq<EffectAliasWire>) -> (trees: Seq<Tree>)
    ensures
        trees.len() == aliases.len(),
        all_read(Seq::new(aliases.len(), |k: int| alias_json(aliases[k])), trees),
        forall|i: int| 0 <= i < aliases.len() ==> says_alias(#[trigger] trees[i], aliases[i]),
    decreases aliases.len(),
{
    if aliases.len() == 0 {
        Seq::empty()
    } else {
        let rest = aliases.drop_last();
        let before = lemma_aliases(rest);
        let last = law_alias_reads_back(aliases.last());
        let trees = before.push(last);
        let parts = Seq::new(aliases.len(), |k: int| alias_json(aliases[k]));
        let head = Seq::new(rest.len(), |k: int| alias_json(rest[k]));
        assert forall|i: int| 0 <= i < parts.len() implies reads_as(
            #[trigger] parts[i],
            trees[i],
        ) by {
            if i < before.len() {
                assert(parts[i] == head[i]);
            }
        }
        assert forall|i: int| 0 <= i < aliases.len() implies says_alias(
            #[trigger] trees[i],
            aliases[i],
        ) by {
            if i < before.len() {
                assert(trees[i] == before[i]);
                assert(aliases[i] == rest[i]);
            }
        }
        trees
    }
}

/// All targets are read with their donors, in order.
pub proof fn law_donors_read_back(specs: Seq<DonorEffWire>, i: int)
    ensures
        ({
            let text = list_of(Seq::new(specs.len(), |k: int| donor_json(specs[k])));
            let items = items_in(at(read(object_of("donor_effs"@, text)), "donor_effs"@));
            &&& items is Some
            &&& items->Some_0.len() == specs.len()
            &&& 0 <= i < specs.len() ==> says_donor(items->Some_0[i], specs[i])
        }),
{
    let trees = lemma_donors(specs);
    let parts = Seq::new(specs.len(), |k: int| donor_json(specs[k]));
    lemma_list_reads(parts, trees);
    reveal_strlit("donor_effs");
    lemma_object_of("donor_effs"@, list_of(parts), Tree::List(trees));
}

proof fn lemma_donors(specs: Seq<DonorEffWire>) -> (trees: Seq<Tree>)
    ensures
        trees.len() == specs.len(),
        all_read(Seq::new(specs.len(), |k: int| donor_json(specs[k])), trees),
        forall|i: int| 0 <= i < specs.len() ==> says_donor(#[trigger] trees[i], specs[i]),
    decreases specs.len(),
{
    if specs.len() == 0 {
        Seq::empty()
    } else {
        let rest = specs.drop_last();
        let before = lemma_donors(rest);
        let last = law_donor_reads_back(specs.last());
        let trees = before.push(last);
        let parts = Seq::new(specs.len(), |k: int| donor_json(specs[k]));
        let head = Seq::new(rest.len(), |k: int| donor_json(rest[k]));
        assert forall|i: int| 0 <= i < parts.len() implies reads_as(
            #[trigger] parts[i],
            trees[i],
        ) by {
            if i < before.len() {
                assert(parts[i] == head[i]);
            }
        }
        assert forall|i: int| 0 <= i < specs.len() implies says_donor(
            #[trigger] trees[i],
            specs[i],
        ) by {
            if i < before.len() {
                assert(trees[i] == before[i]);
                assert(specs[i] == rest[i]);
            }
        }
        trees
    }
}

/// All donor payloads are read as they are, in order.
pub proof fn law_payloads_read_back(donors: Seq<DonorBytesWire>, i: int)
    ensures
        ({
            let text = list_of(Seq::new(donors.len(), |k: int| donor_bytes_json(donors[k])));
            let items = items_in(at(read(object_of("donor_bytes"@, text)), "donor_bytes"@));
            &&& items is Some
            &&& items->Some_0.len() == donors.len()
            &&& 0 <= i < donors.len() ==> says_payload(items->Some_0[i], donors[i])
        }),
{
    let trees = lemma_payloads(donors);
    let parts = Seq::new(donors.len(), |k: int| donor_bytes_json(donors[k]));
    lemma_list_reads(parts, trees);
    reveal_strlit("donor_bytes");
    lemma_object_of("donor_bytes"@, list_of(parts), Tree::List(trees));
}

proof fn lemma_payloads(donors: Seq<DonorBytesWire>) -> (trees: Seq<Tree>)
    ensures
        trees.len() == donors.len(),
        all_read(Seq::new(donors.len(), |k: int| donor_bytes_json(donors[k])), trees),
        forall|i: int| 0 <= i < donors.len() ==> says_payload(#[trigger] trees[i], donors[i]),
    decreases donors.len(),
{
    if donors.len() == 0 {
        Seq::empty()
    } else {
        let rest = donors.drop_last();
        let before = lemma_payloads(rest);
        let last = law_payload_reads_back(donors.last());
        let trees = before.push(last);
        let parts = Seq::new(donors.len(), |k: int| donor_bytes_json(donors[k]));
        let head = Seq::new(rest.len(), |k: int| donor_bytes_json(rest[k]));
        assert forall|i: int| 0 <= i < parts.len() implies reads_as(
            #[trigger] parts[i],
            trees[i],
        ) by {
            if i < before.len() {
                assert(parts[i] == head[i]);
            }
        }
        assert forall|i: int| 0 <= i < donors.len() implies says_payload(
            #[trigger] trees[i],
            donors[i],
        ) by {
            if i < before.len() {
                assert(trees[i] == before[i]);
                assert(donors[i] == rest[i]);
            }
        }
        trees
    }
}

/// The names of effects are read as they are, in order.
pub proof fn law_effect_names_read_back(names: Seq<Seq<char>>)
    ensures
        says_texts(
            at(
                read(object_of("effect_names"@, crate::json::quoted_list(names))),
                "effect_names"@,
            ),
            names,
        ),
{
    lemma_quoted_list_reads(names);
    reveal_strlit("effect_names");
    lemma_object_of(
        "effect_names"@,
        crate::json::quoted_list(names),
        Tree::List(Seq::new(names.len(), |i: int| Tree::Text(names[i]))),
    );
}

// ── Families ─────────────────────────────────────────────────────────────────

/// The families of messages that replace a whole list.
pub open spec fn families() -> Seq<Seq<char>> {
    seq![
        "spawn_rules"@,
        "hitbox_rules"@,
        "effect_control_rules"@,
        "effect_aliases"@,
        "donor_effs"@,
        "donor_bytes"@,
        "asset_bundle"@,
        "effect_names"@,
    ]
}

/// The mark of a family is its name in quotes and a colon.
proof fn lemma_marks(k: int)
    requires
        0 <= k < 8,
    ensures
        crate::outbox::full_replace_marks().len() == 8,
        crate::outbox::full_replace_marks()[k] == seq!['"'] + families()[k] + seq!['"', ':'],
{
    reveal_strlit("spawn_rules");
    reveal_strlit("hitbox_rules");
    reveal_strlit("effect_control_rules");
    reveal_strlit("effect_aliases");
    reveal_strlit("donor_effs");
    reveal_strlit("donor_bytes");
    reveal_strlit("asset_bundle");
    reveal_strlit("effect_names");
    reveal_strlit("\"spawn_rules\":");
    reveal_strlit("\"hitbox_rules\":");
    reveal_strlit("\"effect_control_rules\":");
    reveal_strlit("\"effect_aliases\":");
    reveal_strlit("\"donor_effs\":");
    reveal_strlit("\"donor_bytes\":");
    reveal_strlit("\"asset_bundle\":");
    reveal_strlit("\"effect_names\":");
    assert(crate::outbox::full_replace_marks()[k] =~= seq!['"'] + families()[k] + seq!['"', ':']);
}

/// A list that is sent supersedes the one of its family that still waits: of each family at most
/// one message waits, and it is the newest.
pub proof fn law_newer_lists_supersede(s: crate::link::LinkView, k: int, value: Seq<char>)
    requires
        0 <= k < 8,
        !s.project_send_suppressed,
        !s.rule_send_suppressed,
        s.outbox.len() < crate::outbox::OUTBOX_CAP,
    ensures
        ({
            let payload = object_of(families()[k], value);
            let after = crate::link::sending::replaced(s, payload).outbox;
            let mark = seq!['"'] + families()[k] + seq!['"', ':'];
            &&& after.len() > 0
            &&& after.last() == crate::frames::framed(payload)
            &&& forall|i: int|
                0 <= i < after.len() - 1 ==> !crate::text::contains(#[trigger] after[i], mark)
        }),
{
    let payload = object_of(families()[k], value);
    let message = crate::frames::framed(payload);
    let mark = seq!['"'] + families()[k] + seq!['"', ':'];
    let marks = crate::outbox::full_replace_marks();
    let all = s.outbox.push(message);
    lemma_marks(k);
    let after = crate::outbox::coalesce(all, marks);
    crate::outbox::law_newest_message_stays(all, marks);
    crate::outbox::law_coalesced_families_occur_once(all, marks, k);
    assert(crate::text::contains(message, mark)) by {
        reveal_strlit("{\"");
        reveal_strlit("\":");
        let open = crate::frames::open_tag();
        let at = open.len() + 1;
        assert(message.subrange(at as int, (at + mark.len()) as int) =~= mark);
        assert(crate::text::occurs_at(message, mark, at as int));
    }
    lemma_counted_once(after, mark);
}

proof fn lemma_counted_once(messages: Seq<Seq<char>>, mark: Seq<char>)
    requires
        messages.len() > 0,
        crate::text::contains(messages.last(), mark),
        crate::outbox::count_holding(messages, mark) <= 1,
    ensures
        forall|i: int|
            0 <= i < messages.len() - 1 ==> !crate::text::contains(#[trigger] messages[i], mark),
    decreases messages.len(),
{
    let rest = messages.skip(1);
    if messages.len() > 1 {
        assert(rest.last() == messages.last());
        lemma_counted_some(rest, mark);
        lemma_counted_once(rest, mark);
        assert forall|i: int| 0 <= i < messages.len() - 1 implies !crate::text::contains(
            #[trigger] messages[i],
            mark,
        ) by {
            if i > 0 {
                assert(messages[i] == rest[i - 1]);
            }
        }
    }
}

proof fn lemma_counted_some(messages: Seq<Seq<char>>, mark: Seq<char>)
    requires
        messages.len() > 0,
        crate::text::contains(messages.last(), mark),
    ensures
        crate::outbox::count_holding(messages, mark) >= 1,
    decreases messages.len(),
{
    if messages.len() > 1 {
        assert(messages.skip(1).last() == messages.last());
        lemma_counted_some(messages.skip(1), mark);
    }
}

// ── Commands ─────────────────────────────────────────────────────────────────

/// The message says `name` as its command, and counts as a command that is kept once.
pub open spec fn asks_for(message: Seq<char>, name: Seq<char>) -> bool {
    exists|payload: Seq<char>|
        message == #[trigger] crate::frames::framed(payload) && text_in(
            at(read(payload), "command"@),
        ) == Some(name) && crate::outbox::is_command(message)
}

proof fn lemma_command(name: Seq<char>, payload: Seq<char>, k: int)
    requires
        forall|i: int| 0 <= i < name.len() ==> '_' <= #[trigger] name[i] <= 'z',
        payload == "{\"command\":\""@ + name + "\"}"@,
        0 <= k < crate::outbox::command_marks().len(),
        crate::outbox::command_marks()[k] == "\"command\":\""@ + name + "\""@,
    ensures
        asks_for(crate::frames::framed(payload), name),
{
    crate::session::lemma_plain_escape(name);
    lemma_quoted_reads(name);
    reveal_strlit("command");
    reveal_strlit("\"");
    reveal_strlit("{\"");
    reveal_strlit("\":");
    reveal_strlit("}");
    reveal_strlit("\"}");
    reveal_strlit("{\"command\":\"");
    reveal_strlit("\"command\":\"");
    lemma_object_of("command"@, crate::json::quoted(name), Tree::Text(name));
    assert(payload =~= object_of("command"@, crate::json::quoted(name)));
    let message = crate::frames::framed(payload);
    let mark = crate::outbox::command_marks()[k];
    let start = crate::frames::open_tag().len() + 1;
    assert(message.subrange(start as int, (start + mark.len()) as int) =~= mark);
    assert(crate::text::occurs_at(message, mark, start as int));
    assert(crate::text::contains(message, mark));
}

proof fn lemma_reset()
    ensures
        asks_for(crate::frames::framed("{\"command\":\"reset_pins\"}"@), "reset_pins"@),
{
    reveal_strlit("\"");
    reveal_strlit("\"}");
    reveal_strlit("{\"command\":\"");
    reveal_strlit("\"command\":\"");
    reveal_strlit("reset_pins");
    reveal_strlit("{\"command\":\"reset_pins\"}");
    reveal_strlit("\"command\":\"reset_pins\"");
    let payload = "{\"command\":\"reset_pins\"}"@;
    let mark = "\"command\":\"reset_pins\""@;
    assert(payload =~= "{\"command\":\""@ + "reset_pins"@ + "\"}"@);
    assert(mark =~= "\"command\":\""@ + "reset_pins"@ + "\""@);
    assert(crate::outbox::command_marks()[0] == mark);
    lemma_command("reset_pins"@, payload, 0);
}

proof fn lemma_clear()
    ensures
        asks_for(crate::frames::framed("{\"command\":\"clear_acmd_captures\"}"@), "clear_acmd_captures"@),
{
    reveal_strlit("\"");
    reveal_strlit("\"}");
    reveal_strlit("{\"command\":\"");
    reveal_strlit("\"command\":\"");
    reveal_strlit("clear_acmd_captures");
    reveal_strlit("{\"command\":\"clear_acmd_captures\"}");
    reveal_strlit("\"command\":\"clear_acmd_captures\"");
    let payload = "{\"command\":\"clear_acmd_captures\"}"@;
    let mark = "\"command\":\"clear_acmd_captures\""@;
    assert(payload =~= "{\"command\":\""@ + "clear_acmd_captures"@ + "\"}"@);
    assert(mark =~= "\"command\":\""@ + "clear_acmd_captures"@ + "\""@);
    assert(crate::outbox::command_marks()[1] == mark);
    lemma_command("clear_acmd_captures"@, payload, 1);
}

proof fn lemma_reload()
    ensures
        asks_for(crate::frames::framed("{\"command\":\"live_eff_reload\"}"@), "live_eff_reload"@),
{
    reveal_strlit("\"");
    reveal_strlit("\"}");
    reveal_strlit("{\"command\":\"");
    reveal_strlit("\"command\":\"");
    reveal_strlit("live_eff_reload");
    reveal_strlit("{\"command\":\"live_eff_reload\"}");
    reveal_strlit("\"command\":\"live_eff_reload\"");
    let payload = "{\"command\":\"live_eff_reload\"}"@;
    let mark = "\"command\":\"live_eff_reload\""@;
    assert(payload =~= "{\"command\":\""@ + "live_eff_reload"@ + "\"}"@);
    assert(mark =~= "\"command\":\""@ + "live_eff_reload"@ + "\""@);
    assert(crate::outbox::command_marks()[2] == mark);
    lemma_command("live_eff_reload"@, payload, 2);
}

proof fn lemma_probe()
    ensures
        asks_for(crate::frames::framed("{\"command\":\"live_eff_probe\"}"@), "live_eff_probe"@),
{
    reveal_strlit("\"");
    reveal_strlit("\"}");
    reveal_strlit("{\"command\":\"");
    reveal_strlit("\"command\":\"");
    reveal_strlit("live_eff_probe");
    reveal_strlit("{\"command\":\"live_eff_probe\"}");
    reveal_strlit("\"command\":\"live_eff_probe\"");
    let payload = "{\"command\":\"live_eff_probe\"}"@;
    let mark = "\"command\":\"live_eff_probe\""@;
    assert(payload =~= "{\"command\":\""@ + "live_eff_probe"@ + "\"}"@);
    assert(mark =~= "\"command\":\""@ + "live_eff_probe"@ + "\""@);
    assert(crate::outbox::command_marks()[3] == mark);
    lemma_command("live_eff_probe"@, payload, 3);
}

/// Each request to the game says its own command, and the queue knows it as one.
pub proof fn law_requests_say_their_command(s: crate::link::LinkView)
    requires
        !s.project_send_suppressed,
        !s.rule_send_suppressed,
        s.outbox.len() < crate::outbox::OUTBOX_CAP,
        s.edits_tx < u64::MAX,
    ensures
        asks_for(crate::link::sending::pins_reset(s).outbox.last(), "reset_pins"@),
        asks_for(crate::link::sending::reload_asked(s).outbox.last(), "live_eff_reload"@),
        asks_for(crate::link::sending::probe_asked(s).outbox.last(), "live_eff_probe"@),
        asks_for(crate::link::captures::cleared(s).outbox.last(), "clear_acmd_captures"@),
{
    lemma_reset();
    lemma_reload();
    lemma_probe();
    lemma_clear();
    crate::link::sending::law_sent_messages_wait(s, "{\"command\":\"reset_pins\"}"@);
    crate::link::sending::law_sent_messages_wait(s, "{\"command\":\"live_eff_reload\"}"@);
    crate::link::sending::law_sent_messages_wait(s, "{\"command\":\"live_eff_probe\"}"@);
    crate::outbox::law_newest_message_stays(
        s.outbox.push(crate::frames::framed("{\"command\":\"clear_acmd_captures\"}"@)),
        crate::outbox::command_marks(),
    );
}

} // verus!
