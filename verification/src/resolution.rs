//! Resolving a scene entity over its prefab: which prefab section a key
//! names, how a prefab's sections build a blueprint, and how the scene's
//! values override the blueprint's. Sections whose fields are floating
//! point (transform, sprite, UI) are carried as opaque patches `T`, `S`,
//! `U`, kept in the order they apply; custom component configs are `C`.
use vstd::prelude::*;

use crate::records::{
    merge_audio, override_component, prefer, text_view, without_type, AudioRef, InstanceSource, ResolveError,
    SceneAudioDocument, SceneInstanceDocument,
};
use crate::world::{EntityId, ResolvedEntity};

verus! {

/// The kind of prefab section a key names.
#[derive(Debug, Clone, Copy, PartialEq, Eq, Structural)]
pub enum PrefabSectionKind {
    Name,
    Tags,
    Transform,
    Sprite,
    Audio,
    Ui,
    Custom,
}

/// The kind of prefab section a key names: the six built-in keys, any
/// other key a custom component.
pub open spec fn spec_section_kind(key: Seq<char>) -> PrefabSectionKind {
    if key == "name"@ {
        PrefabSectionKind::Name
    } else if key == "tags"@ {
        PrefabSectionKind::Tags
    } else if key == "transform"@ {
        PrefabSectionKind::Transform
    } else if key == "sprite"@ {
        PrefabSectionKind::Sprite
    } else if key == "audio"@ {
        PrefabSectionKind::Audio
    } else if key == "ui"@ {
        PrefabSectionKind::Ui
    } else {
        PrefabSectionKind::Custom
    }
}

/// Each built-in section is named by exactly its own key: `name`, `tags`,
/// `transform`, `sprite`, `audio` and `ui`; every other key is a custom
/// component.
pub proof fn lemma_section_kinds_by_key(key: Seq<char>)
    ensures
        spec_section_kind(key) == PrefabSectionKind::Name <==> key == "name"@,
        spec_section_kind(key) == PrefabSectionKind::Tags <==> key == "tags"@,
        spec_section_kind(key) == PrefabSectionKind::Transform <==> key == "transform"@,
        spec_section_kind(key) == PrefabSectionKind::Sprite <==> key == "sprite"@,
        spec_section_kind(key) == PrefabSectionKind::Audio <==> key == "audio"@,
        spec_section_kind(key) == PrefabSectionKind::Ui <==> key == "ui"@,
        spec_section_kind(key) == PrefabSectionKind::Custom <==> (key != "name"@ && key != "tags"@ && key
            != "transform"@ && key != "sprite"@ && key != "audio"@ && key != "ui"@),
{
    reveal_strlit("name");
    reveal_strlit("tags");
    reveal_strlit("transform");
    reveal_strlit("sprite");
    reveal_strlit("audio");
    reveal_strlit("ui");
    assert("name"@[0] != "tags"@[0]);
    assert("name"@[0] != "transform"@[0]);
    assert("tags"@[0] != "transform"@[0] || "tags"@[1] != "transform"@[1]);
    assert("sprite"@.len() != "name"@.len());
    assert("audio"@.len() != "name"@.len());
    assert("ui"@.len() != "name"@.len());
}

/// The kind of prefab section a key names.
pub fn prefab_section_kind(key: &str) -> (kind: PrefabSectionKind)
    ensures
        kind == spec_section_kind(key@),
{
    let chars = crate::text::chars_of(key);
    let name = crate::text::chars_of("name");
    let tags = crate::text::chars_of("tags");
    let transform = crate::text::chars_of("transform");
    let sprite = crate::text::chars_of("sprite");
    let audio = crate::text::chars_of("audio");
    let ui = crate::text::chars_of("ui");
    if crate::text::chars_equal(chars.as_slice(), name.as_slice()) {
        PrefabSectionKind::Name
    } else if crate::text::chars_equal(chars.as_slice(), tags.as_slice()) {
        PrefabSectionKind::Tags
    } else if crate::text::chars_equal(chars.as_slice(), transform.as_slice()) {
        PrefabSectionKind::Transform
    } else if crate::text::chars_equal(chars.as_slice(), sprite.as_slice()) {
        PrefabSectionKind::Sprite
    } else if crate::text::chars_equal(chars.as_slice(), audio.as_slice()) {
        PrefabSectionKind::Audio
    } else if crate::text::chars_equal(chars.as_slice(), ui.as_slice()) {
        PrefabSectionKind::Ui
    } else {
        PrefabSectionKind::Custom
    }
}

/// A prefab section as read: the name and the tags are read leniently (a
/// missing or non-text value gives no name, non-text tags are skipped); a
/// custom section carries its type name and config where it names a type;
/// a built-in section whose value has the wrong shape is malformed.
pub enum PrefabComponent<T, S, U, C> {
    Name(Option<String>),
    Tags(Vec<String>),
    Transform(T),
    Sprite(S),
    Audio(SceneAudioDocument),
    Ui(U),
    Custom(Option<(String, C)>),
    Malformed,
}

/// What a prefab gives an entity before the scene's values: its name, tags,
/// sound and custom components, and its transform, sprite and UI patches in
/// the order they apply.
pub struct Blueprint<T, S, U, C> {
    pub name: Option<String>,
    pub tags: Vec<String>,
    pub audio: Option<AudioRef>,
    pub components: Vec<(String, C)>,
    pub transforms: Vec<T>,
    pub sprites: Vec<S>,
    pub uis: Vec<U>,
}

/// A blueprint as plain values.
pub struct BlueprintView<T, S, U, C> {
    pub name: Option<Seq<char>>,
    pub tags: Seq<Seq<char>>,
    pub audio: Option<Seq<char>>,
    pub components: Seq<(String, C)>,
    pub transforms: Seq<T>,
    pub sprites: Seq<S>,
    pub uis: Seq<U>,
}

/// Texts as characters.
pub open spec fn texts_view(texts: Seq<String>) -> Seq<Seq<char>> {
    texts.map_values(|text: String| text@)
}

/// The sound of an optional audio reference.
pub open spec fn sound_of(audio: Option<AudioRef>) -> Option<Seq<char>> {
    match audio {
        Some(a) => Some(a.sound@),
        None => None,
    }
}

impl<T, S, U, C> Blueprint<T, S, U, C> {
    pub open spec fn spec_view(&self) -> BlueprintView<T, S, U, C> {
        BlueprintView {
            name: text_view(self.name),
            tags: texts_view(self.tags@),
            audio: sound_of(self.audio),
            components: self.components@,
            transforms: self.transforms@,
            sprites: self.sprites@,
            uis: self.uis@,
        }
    }
}

/// The blueprint of an entity without a prefab.
pub open spec fn empty_blueprint<T, S, U, C>() -> BlueprintView<T, S, U, C> {
    BlueprintView {
        name: None,
        tags: Seq::empty(),
        audio: None,
        components: Seq::empty(),
        transforms: Seq::empty(),
        sprites: Seq::empty(),
        uis: Seq::empty(),
    }
}

/// A blueprint after one more prefab section; a malformed section refuses
/// the prefab under its key.
pub open spec fn spec_apply_section<T, S, U, C>(
    blueprint: BlueprintView<T, S, U, C>,
    key: Seq<char>,
    section: PrefabComponent<T, S, U, C>,
) -> Result<BlueprintView<T, S, U, C>, Seq<char>> {
    match section {
        PrefabComponent::Name(name) => Ok(BlueprintView { name: text_view(name), ..blueprint }),
        PrefabComponent::Tags(tags) => Ok(BlueprintView { tags: texts_view(tags@), ..blueprint }),
        PrefabComponent::Transform(t) => Ok(BlueprintView { transforms: blueprint.transforms.push(t), ..blueprint }),
        PrefabComponent::Sprite(s) => Ok(BlueprintView { sprites: blueprint.sprites.push(s), ..blueprint }),
        PrefabComponent::Audio(a) => Ok(BlueprintView { audio: prefer(text_view(a.sound), blueprint.audio), ..blueprint }),
        PrefabComponent::Ui(u) => Ok(BlueprintView { uis: blueprint.uis.push(u), ..blueprint }),
        PrefabComponent::Custom(Some(component)) => Ok(
            BlueprintView { components: blueprint.components.push(component), ..blueprint },
        ),
        PrefabComponent::Custom(None) => Ok(blueprint),
        PrefabComponent::Malformed => Err(key),
    }
}

/// The blueprint a prefab's sections build, in order; the key of the first
/// malformed section where one is.
pub open spec fn spec_prefab_blueprint<T, S, U, C>(sections: Seq<(String, PrefabComponent<T, S, U, C>)>) -> Result<
    BlueprintView<T, S, U, C>,
    Seq<char>,
>
    decreases sections.len(),
{
    if sections.len() == 0 {
        Ok(empty_blueprint())
    } else {
        match spec_prefab_blueprint(sections.drop_last()) {
            Err(key) => Err(key),
            Ok(blueprint) => spec_apply_section(blueprint, sections.last().0@, sections.last().1),
        }
    }
}

/// A refused prefix refuses the whole prefab, under the same key.
proof fn lemma_refused_prefix<T, S, U, C>(sections: Seq<(String, PrefabComponent<T, S, U, C>)>, count: int)
    requires
        0 <= count <= sections.len(),
        spec_prefab_blueprint(sections.take(count)) is Err,
    ensures
        spec_prefab_blueprint(sections) == spec_prefab_blueprint(sections.take(count)),
    decreases sections.len() - count,
{
    if count < sections.len() {
        assert(sections.take(count + 1).drop_last() =~= sections.take(count));
        lemma_refused_prefix(sections, count + 1);
    } else {
        assert(sections.take(count) =~= sections);
    }
}

/// A prefab is read section by section: it is refused exactly when some
/// section is malformed, under the key of the first malformed section;
/// otherwise its name is that of its last name section (none without one),
/// and each sprite section adds its patch after the ones before it.
pub proof fn lemma_prefab_reads_sections<T, S, U, C>(sections: Seq<(String, PrefabComponent<T, S, U, C>)>)
    ensures
        (forall|k: int| 0 <= k < sections.len() ==> !((#[trigger] sections[k]).1 is Malformed))
            ==> spec_prefab_blueprint(sections) is Ok,
        (exists|k: int| 0 <= k < sections.len() && (#[trigger] sections[k]).1 is Malformed) ==> exists|k: int|
            0 <= k < sections.len() && (#[trigger] sections[k]).1 is Malformed && (forall|j: int|
                0 <= j < k ==> !((#[trigger] sections[j]).1 is Malformed)) && spec_prefab_blueprint(sections)
                == Err::<BlueprintView<T, S, U, C>, Seq<char>>(sections[k].0@),
        spec_prefab_blueprint(sections) matches Ok(blueprint) ==> ((forall|k: int|
            0 <= k < sections.len() ==> !((#[trigger] sections[k]).1 is Name)) ==> blueprint.name is None),
        spec_prefab_blueprint(sections) matches Ok(blueprint) ==> (forall|k: int|
            0 <= k < sections.len() && (#[trigger] sections[k]).1 is Name && (forall|j: int|
                k < j < sections.len() ==> !((#[trigger] sections[j]).1 is Name)) ==> blueprint.name == text_view(
                sections[k].1->Name_0,
            )),
        spec_prefab_blueprint(sections) matches Ok(blueprint) ==> (sections.len() > 0 && sections.last().1 is Sprite
            ==> blueprint.sprites.len() > 0 && blueprint.sprites.last() == sections.last().1->Sprite_0),
    decreases sections.len(),
{
    if sections.len() > 0 {
        let rest = sections.drop_last();
        let last = sections.last();
        lemma_prefab_reads_sections(rest);
        assert forall|k: int| 0 <= k < rest.len() implies #[trigger] rest[k] == sections[k] by {}
        if forall|k: int| 0 <= k < sections.len() ==> !((#[trigger] sections[k]).1 is Malformed) {
            assert forall|k: int| 0 <= k < rest.len() implies !((#[trigger] rest[k]).1 is Malformed) by {
                assert(rest[k] == sections[k]);
            }
            assert(!(sections[sections.len() - 1].1 is Malformed));
        }
        if exists|k: int| 0 <= k < sections.len() && (#[trigger] sections[k]).1 is Malformed {
            if exists|k: int| 0 <= k < rest.len() && (#[trigger] rest[k]).1 is Malformed {
                let k = choose|k: int|
                    0 <= k < rest.len() && (#[trigger] rest[k]).1 is Malformed && (forall|j: int|
                        0 <= j < k ==> !((#[trigger] rest[j]).1 is Malformed)) && spec_prefab_blueprint(rest)
                        == Err::<BlueprintView<T, S, U, C>, Seq<char>>(rest[k].0@);
                assert(sections[k] == rest[k]);
                assert forall|j: int| 0 <= j < k implies !((#[trigger] sections[j]).1 is Malformed) by {
                    assert(sections[j] == rest[j]);
                }
            } else {
                assert forall|k: int| 0 <= k < rest.len() implies !((#[trigger] rest[k]).1 is Malformed) by {}
                let n = sections.len() - 1;
                assert(sections[n] == last);
                assert(last.1 is Malformed) by {
                    let k = choose|k: int| 0 <= k < sections.len() && (#[trigger] sections[k]).1 is Malformed;
                    if k < n {
                        assert(rest[k] == sections[k]);
                    }
                }
                assert forall|j: int| 0 <= j < n implies !((#[trigger] sections[j]).1 is Malformed) by {
                    assert(rest[j] == sections[j]);
                }
            }
        }
        if let Ok(blueprint) = spec_prefab_blueprint(sections) {
            let before = spec_prefab_blueprint(rest)->Ok_0;
            let n = sections.len() - 1;
            assert(sections[n] == last);
            if forall|k: int| 0 <= k < sections.len() ==> !((#[trigger] sections[k]).1 is Name) {
                assert forall|k: int| 0 <= k < rest.len() implies !((#[trigger] rest[k]).1 is Name) by {
                    assert(rest[k] == sections[k]);
                }
            }
            assert forall|k: int|
                0 <= k < sections.len() && (#[trigger] sections[k]).1 is Name && (forall|j: int|
                    k < j < sections.len() ==> !((#[trigger] sections[j]).1 is Name)) implies blueprint.name
                == text_view(sections[k].1->Name_0) by {
                if k < n {
                    assert(!(sections[n].1 is Name));
                    assert(rest[k] == sections[k]);
                    assert forall|j: int| k < j < rest.len() implies !((#[trigger] rest[j]).1 is Name) by {
                        assert(rest[j] == sections[j]);
                    }
                }
            }
        }
    }
}

/// Builds the blueprint of a prefab from its sections, in order: the last
/// name and tags sections win, sounds merge, custom components that name a
/// type are kept in order, and patches are kept in order; the first
/// malformed section refuses the prefab.
#[verifier::loop_isolation(false)]
pub fn prefab_blueprint<T, S, U, C>(sections: Vec<(String, PrefabComponent<T, S, U, C>)>) -> (result: Result<
    Blueprint<T, S, U, C>,
    ResolveError,
>)
    ensures
        match spec_prefab_blueprint(sections@) {
            Ok(view) => result matches Ok(blueprint) && blueprint.spec_view() == view,
            Err(key) => result matches Err(ResolveError::InvalidPrefabComponent(name)) && name@ == key,
        },
{
    let ghost all = sections@;
    let total = sections.len();
    let mut rest = sections;
    let mut blueprint: Blueprint<T, S, U, C> = Blueprint {
        name: None,
        tags: Vec::new(),
        audio: None,
        components: Vec::new(),
        transforms: Vec::new(),
        sprites: Vec::new(),
        uis: Vec::new(),
    };
    assert(blueprint.spec_view() == empty_blueprint::<T, S, U, C>()) by {
        assert(texts_view(blueprint.tags@) =~= Seq::<Seq<char>>::empty());
        assert(blueprint.components@ =~= Seq::<(String, C)>::empty());
        assert(blueprint.transforms@ =~= Seq::<T>::empty());
        assert(blueprint.sprites@ =~= Seq::<S>::empty());
        assert(blueprint.uis@ =~= Seq::<U>::empty());
    }
    let mut i: usize = 0;
    assert(all.take(0) =~= Seq::<(String, PrefabComponent<T, S, U, C>)>::empty());
    assert(all.skip(0) =~= all);
    while rest.len() > 0
        invariant
            i + rest@.len() == all.len(),
            all.len() == total,
            rest@ == all.skip(i as int),
            spec_prefab_blueprint(all.take(i as int)) == Ok::<BlueprintView<T, S, U, C>, Seq<char>>(
                blueprint.spec_view(),
            ),
        decreases rest@.len(),
    {
        let (key, section) = rest.remove(0);
        proof {
            assert(all.take(i + 1).drop_last() =~= all.take(i as int));
            assert(all.take(i + 1).last() == all[i as int]);
            assert(all[i as int] == (key, section));
        }
        let ghost before = blueprint.spec_view();
        match section {
            PrefabComponent::Name(name) => {
                blueprint.name = name;
            },
            PrefabComponent::Tags(tags) => {
                blueprint.tags = tags;
            },
            PrefabComponent::Transform(t) => {
                blueprint.transforms.push(t);
            },
            PrefabComponent::Sprite(s) => {
                blueprint.sprites.push(s);
            },
            PrefabComponent::Audio(a) => {
                let previous = blueprint.audio.take();
                blueprint.audio = merge_audio(previous, a);
            },
            PrefabComponent::Ui(u) => {
                blueprint.uis.push(u);
            },
            PrefabComponent::Custom(Some(component)) => {
                blueprint.components.push(component);
            },
            PrefabComponent::Custom(None) => {},
            PrefabComponent::Malformed => {
                proof {
                    assert(all[i as int].1 is Malformed);
                    assert(spec_prefab_blueprint(all.take(i + 1)) == spec_apply_section(before, key@, all[i as int].1));
                    assert(all[i as int].0@ == key@);
                    assert(spec_prefab_blueprint(all.take(i + 1)) == Err::<BlueprintView<T, S, U, C>, Seq<char>>(key@));
                    lemma_refused_prefix(all, i + 1);
                    assert(spec_prefab_blueprint(all) == Err::<BlueprintView<T, S, U, C>, Seq<char>>(key@));
                }
                let error = ResolveError::InvalidPrefabComponent(key);
                assert(error matches ResolveError::InvalidPrefabComponent(n) && n@ == all[i as int].0@);
                return Err(error);
            },
        }
        proof {
            let after = blueprint.spec_view();
            assert(after.transforms =~= spec_apply_section(before, key@, all[i as int].1)->Ok_0.transforms);
            assert(after.sprites =~= spec_apply_section(before, key@, all[i as int].1)->Ok_0.sprites);
            assert(after.uis =~= spec_apply_section(before, key@, all[i as int].1)->Ok_0.uis);
            assert(after.components =~= spec_apply_section(before, key@, all[i as int].1)->Ok_0.components);
            assert(rest@ =~= all.skip(i + 1));
        }
        i = i + 1;
    }
    assert(all.take(i as int) =~= all);
    Ok(blueprint)
}

/// A scene entity document, with its floating-point sections as patches.
pub struct SceneEntityParts<T, S, U, C> {
    pub id: Option<u64>,
    pub prefab: Option<String>,
    pub name: Option<String>,
    pub tags: Option<Vec<String>>,
    pub data: Option<Vec<(String, String)>>,
    pub transform: Option<T>,
    pub sprite: Option<S>,
    pub audio: Option<SceneAudioDocument>,
    pub ui: Option<U>,
    pub instance: Option<SceneInstanceDocument>,
    pub components: Vec<(String, C)>,
}

/// A resolved entity record, with its floating-point sections as the
/// patches that apply to them, in order.
pub struct ResolvedRecord<T, S, U, C> {
    pub name: Option<String>,
    pub tags: Vec<String>,
    pub data_refs: Vec<(String, String)>,
    pub audio: Option<AudioRef>,
    pub instance_source: Option<InstanceSource>,
    pub components: Vec<(String, C)>,
    pub transforms: Vec<T>,
    pub sprites: Vec<S>,
    pub uis: Vec<U>,
}

/// An optional value as a sequence of none or one.
pub open spec fn optional_seq<A>(value: Option<A>) -> Seq<A> {
    match value {
        Some(v) => seq![v],
        None => Seq::empty(),
    }
}

/// The scene's components over the blueprint's: each scene component in
/// order replaces the ones of its type and goes to the end.
pub open spec fn spec_override_all<C>(components: Seq<(String, C)>, scene: Seq<(String, C)>) -> Seq<(String, C)>
    decreases scene.len(),
{
    if scene.len() == 0 {
        components
    } else {
        spec_override_all(
            without_type(components, scene[0].0@).push(scene[0]),
            scene.drop_first(),
        )
    }
}

/// The components of one type name, in order.
pub open spec fn of_type<C>(components: Seq<(String, C)>, component_type: Seq<char>) -> Seq<(String, C)> {
    components.filter(|component: (String, C)| component.0@ == component_type)
}

proof fn lemma_of_type_push<C>(components: Seq<(String, C)>, x: (String, C), t: Seq<char>)
    ensures
        of_type(components.push(x), t) == if x.0@ == t {
            of_type(components, t).push(x)
        } else {
            of_type(components, t)
        },
{
    reveal(Seq::filter);
    assert(components.push(x).drop_last() =~= components);
}

proof fn lemma_of_type_without<C>(components: Seq<(String, C)>, removed: Seq<char>, t: Seq<char>)
    ensures
        removed != t ==> of_type(without_type(components, removed), t) == of_type(components, t),
        of_type(without_type(components, t), t).len() == 0,
    decreases components.len(),
{
    reveal(Seq::filter);
    if components.len() > 0 {
        let rest = components.drop_last();
        let x = components.last();
        assert(rest.push(x) =~= components);
        lemma_of_type_without(rest, removed, t);
        lemma_of_type_push(rest, x, t);
        lemma_of_type_push(without_type(rest, removed), x, t);
        lemma_of_type_push(without_type(rest, t), x, t);
        assert(without_type(components, removed) == if x.0@ != removed {
            without_type(rest, removed).push(x)
        } else {
            without_type(rest, removed)
        });
        assert(without_type(components, t) == if x.0@ != t {
            without_type(rest, t).push(x)
        } else {
            without_type(rest, t)
        });
    } else {
        assert(without_type(components, removed) =~= components);
        assert(without_type(components, t) =~= components);
        assert(of_type(components, t) =~= components);
    }
}

/// A scene's custom components override the prefab's by type name: for a
/// type that no scene component has, the entity keeps exactly the prefab's
/// components of that type, in order; for a type that some scene component
/// has, the entity has exactly one component of that type, the scene's
/// last one of it.
pub proof fn lemma_scene_components_override_by_type<C>(
    components: Seq<(String, C)>,
    scene: Seq<(String, C)>,
    t: Seq<char>,
)
    ensures
        (forall|k: int| 0 <= k < scene.len() ==> (#[trigger] scene[k]).0@ != t) ==> of_type(
            spec_override_all(components, scene),
            t,
        ) == of_type(components, t),
        (exists|k: int| 0 <= k < scene.len() && (#[trigger] scene[k]).0@ == t) ==> exists|k: int|
            0 <= k < scene.len() && (#[trigger] scene[k]).0@ == t && (forall|j: int|
                k < j < scene.len() ==> (#[trigger] scene[j]).0@ != t) && of_type(spec_override_all(components, scene), t)
                == seq![scene[k]],
    decreases scene.len(),
{
    if scene.len() > 0 {
        let first = scene[0];
        let rest = scene.drop_first();
        let next = without_type(components, first.0@).push(first);
        lemma_scene_components_override_by_type(next, rest, t);
        lemma_of_type_push(without_type(components, first.0@), first, t);
        lemma_of_type_without(components, first.0@, t);
        assert forall|k: int| 0 <= k < rest.len() implies #[trigger] rest[k] == scene[k + 1] by {}
        if exists|k: int| 0 <= k < rest.len() && (#[trigger] rest[k]).0@ == t {
            let k = choose|k: int|
                0 <= k < rest.len() && (#[trigger] rest[k]).0@ == t && (forall|j: int|
                    k < j < rest.len() ==> (#[trigger] rest[j]).0@ != t) && of_type(spec_override_all(next, rest), t)
                    == seq![rest[k]];
            assert(scene[k + 1] == rest[k]);
            assert forall|j: int| k + 1 < j < scene.len() implies (#[trigger] scene[j]).0@ != t by {
                assert(scene[j] == rest[j - 1]);
            }
        } else {
            assert forall|k: int| 0 <= k < rest.len() implies (#[trigger] rest[k]).0@ != t by {}
            if first.0@ == t {
                assert(of_type(without_type(components, t), t) =~= Seq::<(String, C)>::empty());
                assert(of_type(next, t) =~= seq![scene[0]]);
                assert forall|j: int| 0 < j < scene.len() implies (#[trigger] scene[j]).0@ != t by {
                    assert(scene[j] == rest[j - 1]);
                }
            } else {
                assert forall|k: int| 0 <= k < scene.len() implies (#[trigger] scene[k]).0@ != t by {
                    if k > 0 {
                        assert(scene[k] == rest[k - 1]);
                    }
                }
            }
        }
    }
}

/// Resolves a scene entity over its prefab's blueprint (an empty one
/// without a prefab): the scene's name, tags and sound override the
/// prefab's where given; its data references and instance link are its
/// own; its components replace the blueprint's of their type; its
/// transform, sprite and UI patches apply after the prefab's. The id and
/// prefab path are the scene's.
pub fn resolve_scene_entity<T, S, U, C>(
    entity: SceneEntityParts<T, S, U, C>,
    prefab: Option<Blueprint<T, S, U, C>>,
) -> (resolved: ResolvedEntity<ResolvedRecord<T, S, U, C>>)
    ensures
        ({
            let base = match prefab {
                Some(blueprint) => blueprint.spec_view(),
                None => empty_blueprint(),
            };
            let record = resolved.record;
            &&& match resolved.id {
                Some(id) => entity.id == Some(id@),
                None => entity.id is None,
            }
            &&& text_view(resolved.prefab) == text_view(entity.prefab)
            &&& text_view(record.name) == prefer(text_view(entity.name), base.name)
            &&& texts_view(record.tags@) == match entity.tags {
                Some(tags) => texts_view(tags@),
                None => base.tags,
            }
            &&& record.data_refs@ == match entity.data {
                Some(data) => data@,
                None => Seq::<(String, String)>::empty(),
            }
            &&& sound_of(record.audio) == match entity.audio {
                Some(audio) => prefer(text_view(audio.sound), base.audio),
                None => base.audio,
            }
            &&& match entity.instance {
                Some(instance) => record.instance_source matches Some(source) && source.scene@ == instance.scene@
                    && source.source_entity@ == instance.source_entity,
                None => record.instance_source is None,
            }
            &&& record.components@ == spec_override_all(base.components, entity.components@)
            &&& record.transforms@ == base.transforms + optional_seq(entity.transform)
            &&& record.sprites@ == base.sprites + optional_seq(entity.sprite)
            &&& record.uis@ == base.uis + optional_seq(entity.ui)
        }),
{
    let mut blueprint: Blueprint<T, S, U, C> = match prefab {
        Some(blueprint) => blueprint,
        None => {
            let empty = Blueprint {
                name: None,
                tags: Vec::new(),
                audio: None,
                components: Vec::new(),
                transforms: Vec::new(),
                sprites: Vec::new(),
                uis: Vec::new(),
            };
            assert(empty.spec_view() == empty_blueprint::<T, S, U, C>()) by {
                assert(texts_view(empty.tags@) =~= Seq::<Seq<char>>::empty());
                assert(empty.components@ =~= Seq::<(String, C)>::empty());
                assert(empty.transforms@ =~= Seq::<T>::empty());
                assert(empty.sprites@ =~= Seq::<S>::empty());
                assert(empty.uis@ =~= Seq::<U>::empty());
            }
            empty
        },
    };
    let ghost base = blueprint.spec_view();
    let SceneEntityParts { id, prefab, name, tags, data, transform, sprite, audio, ui, instance, components } = entity;
    let name = match name {
        Some(name) => Some(name),
        None => blueprint.name,
    };
    let tags = match tags {
        Some(tags) => tags,
        None => blueprint.tags,
    };
    let data_refs = match data {
        Some(data) => data,
        None => Vec::new(),
    };
    let sound = match audio {
        Some(audio) => merge_audio(blueprint.audio, audio),
        None => blueprint.audio,
    };
    let instance_source = match instance {
        Some(instance) => Some(InstanceSource::from_document(&instance)),
        None => None,
    };
    let mut transforms = blueprint.transforms;
    if let Some(t) = transform {
        transforms.push(t);
    }
    let mut sprites = blueprint.sprites;
    if let Some(s) = sprite {
        sprites.push(s);
    }
    let mut uis = blueprint.uis;
    if let Some(u) = ui {
        uis.push(u);
    }
    let mut merged = blueprint.components;
    let ghost scene = components@;
    let count = components.len();
    let mut rest = components;
    let mut i: usize = 0;
    assert(scene.skip(0) =~= scene);
    while rest.len() > 0
        invariant
            i + rest@.len() == scene.len(),
            scene.len() == count,
            rest@ == scene.skip(i as int),
            spec_override_all(base.components, scene) == spec_override_all(merged@, rest@),
        decreases rest@.len(),
    {
        let (component_type, config) = rest.remove(0);
        proof {
            assert(rest@ =~= scene.skip(i + 1));
        }
        override_component(&mut merged, component_type, config);
        i = i + 1;
    }
    assert(spec_override_all(merged@, rest@) == merged@);
    let resolved_id = match id {
        Some(raw) => Some(EntityId::new(raw)),
        None => None,
    };
    proof {
        assert(transforms@ =~= base.transforms + optional_seq(transform));
        assert(sprites@ =~= base.sprites + optional_seq(sprite));
        assert(uis@ =~= base.uis + optional_seq(ui));
    }
    ResolvedEntity {
        id: resolved_id,
        prefab,
        record: ResolvedRecord {
            name,
            tags,
            data_refs,
            audio: sound,
            instance_source,
            components: merged,
            transforms,
            sprites,
            uis,
        },
    }
}

} // verus!
