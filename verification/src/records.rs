//! The parts of entity records and scene entity documents that carry no
//! numbers of their own: sounds, UI images and interactions, anchors, tags,
//! instance links; how a scene's values override a prefab's; and custom
//! components replaced by type name.
use vstd::prelude::*;

use crate::world::EntityId;

verus! {

/// An optional text as characters.
pub open spec fn text_view(text: Option<String>) -> Option<Seq<char>> {
    match text {
        Some(t) => Some(t@),
        None => None,
    }
}

fn copy_text(text: &Option<String>) -> (copy: Option<String>)
    ensures
        text_view(copy) == text_view(*text),
{
    match text {
        Some(t) => Some(t.clone()),
        None => None,
    }
}

/// The override's value where it has one, else the base's.
pub open spec fn prefer(override_value: Option<Seq<char>>, base: Option<Seq<char>>) -> Option<Seq<char>> {
    match override_value {
        Some(v) => Some(v),
        None => base,
    }
}

fn prefer_text(override_value: Option<String>, base: &Option<String>) -> (chosen: Option<String>)
    ensures
        text_view(chosen) == prefer(text_view(override_value), text_view(*base)),
{
    match override_value {
        Some(v) => Some(v),
        None => copy_text(base),
    }
}

/// The sound an entity plays.
#[derive(Debug, Clone, PartialEq, Eq)]
pub struct AudioRef {
    pub sound: String,
}

/// A scene's or prefab's audio section: the sound, if given.
#[derive(Debug, Clone, Default, PartialEq, Eq)]
pub struct SceneAudioDocument {
    pub sound: Option<String>,
}

/// The sound of an optional audio reference.
pub open spec fn audio_sound(audio: Option<AudioRef>) -> Option<Seq<char>> {
    match audio {
        Some(a) => Some(a.sound@),
        None => None,
    }
}

/// The audio of an entity whose prefab has `base` and whose scene entry
/// has `override_value`: the scene's sound where it names one, else the
/// prefab's; none where neither names one.
pub fn merge_audio(base: Option<AudioRef>, override_value: SceneAudioDocument) -> (merged: Option<AudioRef>)
    ensures
        match prefer(text_view(override_value.sound), audio_sound(base)) {
            Some(sound) => merged matches Some(a) && a.sound@ == sound,
            None => merged is None,
        },
{
    match override_value.sound {
        Some(sound) => Some(AudioRef { sound }),
        None => match base {
            Some(audio) => Some(AudioRef { sound: audio.sound }),
            None => None,
        },
    }
}

/// Where a UI element is anchored on the screen.
#[derive(Debug, Clone, Copy, Default, PartialEq, Eq, Structural)]
pub enum UiAnchor {
    #[default]
    TopLeft,
    Top,
    TopRight,
    Left,
    Center,
    Right,
    BottomLeft,
    Bottom,
    BottomRight,
}

/// A UI image: its texture and optional tint.
#[derive(Debug, Clone, PartialEq, Eq)]
pub struct UiImageRef {
    pub texture: String,
    pub tint: Option<String>,
}

/// A UI interaction: the action it triggers and whether it is enabled.
#[derive(Debug, Clone, PartialEq, Eq)]
pub struct UiInteractionRef {
    pub action: String,
    pub enabled: bool,
}

/// A UI image section as a document writes it.
#[derive(Debug, Clone, Default, PartialEq, Eq)]
pub struct SceneUiImageDocument {
    pub texture: Option<String>,
    pub tint: Option<String>,
}

/// A UI interaction section as a document writes it.
#[derive(Debug, Clone, Default, PartialEq, Eq)]
pub struct SceneUiInteractionDocument {
    pub action: Option<String>,
    pub enabled: Option<bool>,
}

impl AudioRef {
    /// The audio section that writes this sound.
    pub fn to_document(&self) -> (document: SceneAudioDocument)
        ensures
            text_view(document.sound) == Some(self.sound@),
    {
        SceneAudioDocument { sound: Some(self.sound.clone()) }
    }
}

impl UiImageRef {
    /// The image section that writes this image: its texture and its tint.
    pub fn to_document(&self) -> (document: SceneUiImageDocument)
        ensures
            text_view(document.texture) == Some(self.texture@),
            text_view(document.tint) == text_view(self.tint),
    {
        SceneUiImageDocument { texture: Some(self.texture.clone()), tint: copy_text(&self.tint) }
    }
}

impl UiInteractionRef {
    /// The interaction section that writes this interaction.
    pub fn to_document(&self) -> (document: SceneUiInteractionDocument)
        ensures
            text_view(document.action) == Some(self.action@),
            document.enabled == Some(self.enabled),
    {
        SceneUiInteractionDocument { action: Some(self.action.clone()), enabled: Some(self.enabled) }
    }
}

/// An image section as characters: texture and tint.
pub open spec fn image_view(image: SceneUiImageDocument) -> (Option<Seq<char>>, Option<Seq<char>>) {
    (text_view(image.texture), text_view(image.tint))
}

/// An optional image section as characters.
pub open spec fn opt_image_view(image: Option<SceneUiImageDocument>) -> Option<(Option<Seq<char>>, Option<Seq<char>>)> {
    match image {
        Some(i) => Some(image_view(i)),
        None => None,
    }
}

/// The image section of a scene entry over a prefab's: without an override
/// the prefab's section stands; with one, each field is the override's where
/// it has one, else the prefab's, and the section is dropped when neither
/// gives any field.
pub open spec fn spec_merge_image(
    base: Option<(Option<Seq<char>>, Option<Seq<char>>)>,
    override_value: Option<(Option<Seq<char>>, Option<Seq<char>>)>,
) -> Option<(Option<Seq<char>>, Option<Seq<char>>)> {
    match override_value {
        None => base,
        Some((texture, tint)) => {
            let texture = prefer(texture, match base { Some(b) => b.0, None => None });
            let tint = prefer(tint, match base { Some(b) => b.1, None => None });
            if texture is Some || tint is Some {
                Some((texture, tint))
            } else {
                None
            }
        },
    }
}

pub fn merge_ui_image(
    base: Option<SceneUiImageDocument>,
    override_value: Option<SceneUiImageDocument>,
) -> (merged: Option<SceneUiImageDocument>)
    ensures
        opt_image_view(merged) == spec_merge_image(opt_image_view(base), opt_image_view(override_value)),
{
    let override_value = match override_value {
        Some(o) => o,
        None => return base,
    };
    let empty = SceneUiImageDocument { texture: None, tint: None };
    let base_image = match &base {
        Some(b) => b,
        None => &empty,
    };
    let texture = prefer_text(override_value.texture, &base_image.texture);
    let tint = prefer_text(override_value.tint, &base_image.tint);
    if texture.is_some() || tint.is_some() {
        Some(SceneUiImageDocument { texture, tint })
    } else {
        None
    }
}

/// An interaction section as characters: action and enabled flag.
pub open spec fn interaction_view(interaction: SceneUiInteractionDocument) -> (Option<Seq<char>>, Option<bool>) {
    (text_view(interaction.action), interaction.enabled)
}

/// An optional interaction section as characters.
pub open spec fn opt_interaction_view(interaction: Option<SceneUiInteractionDocument>) -> Option<
    (Option<Seq<char>>, Option<bool>),
> {
    match interaction {
        Some(i) => Some(interaction_view(i)),
        None => None,
    }
}

/// The interaction section of a scene entry over a prefab's, field by field
/// as for images.
pub open spec fn spec_merge_interaction(
    base: Option<(Option<Seq<char>>, Option<bool>)>,
    override_value: Option<(Option<Seq<char>>, Option<bool>)>,
) -> Option<(Option<Seq<char>>, Option<bool>)> {
    match override_value {
        None => base,
        Some((action, enabled)) => {
            let action = prefer(action, match base { Some(b) => b.0, None => None });
            let enabled = match enabled {
                Some(e) => Some(e),
                None => match base { Some(b) => b.1, None => None },
            };
            if action is Some || enabled is Some {
                Some((action, enabled))
            } else {
                None
            }
        },
    }
}

pub fn merge_ui_interaction(
    base: Option<SceneUiInteractionDocument>,
    override_value: Option<SceneUiInteractionDocument>,
) -> (merged: Option<SceneUiInteractionDocument>)
    ensures
        opt_interaction_view(merged) == spec_merge_interaction(
            opt_interaction_view(base),
            opt_interaction_view(override_value),
        ),
{
    let override_value = match override_value {
        Some(o) => o,
        None => return base,
    };
    let (base_action, base_enabled) = match &base {
        Some(b) => (copy_text(&b.action), b.enabled),
        None => (None, None),
    };
    let action = prefer_text(override_value.action, &base_action);
    let enabled = match override_value.enabled {
        Some(e) => Some(e),
        None => base_enabled,
    };
    if action.is_some() || enabled.is_some() {
        Some(SceneUiInteractionDocument { action, enabled })
    } else {
        None
    }
}

/// The UI image of a merged image section: only one with a texture gives
/// an image.
pub fn finalize_ui_image(image: SceneUiImageDocument) -> (finished: Option<UiImageRef>)
    ensures
        match image.texture {
            Some(texture) => finished matches Some(f) && f.texture@ == texture@ && text_view(f.tint) == text_view(
                image.tint,
            ),
            None => finished is None,
        },
{
    match image.texture {
        Some(texture) => Some(UiImageRef { texture, tint: image.tint }),
        None => None,
    }
}

/// The UI interaction of a merged interaction section: only one with an
/// action gives an interaction, enabled unless it says otherwise.
pub fn finalize_ui_interaction(interaction: SceneUiInteractionDocument) -> (finished: Option<UiInteractionRef>)
    ensures
        match interaction.action {
            Some(action) => finished matches Some(f) && f.action@ == action@ && f.enabled == match interaction.enabled {
                Some(e) => e,
                None => true,
            },
            None => finished is None,
        },
{
    match interaction.action {
        Some(action) => Some(
            UiInteractionRef {
                action,
                enabled: match interaction.enabled {
                    Some(e) => e,
                    None => true,
                },
            },
        ),
        None => None,
    }
}

/// A tags section: its tags in order.
#[derive(Debug, Clone, Default, PartialEq, Eq)]
pub struct TagsDocument {
    pub values: Vec<String>,
}

/// The link of an instantiated entity to the scene entity it copies.
#[derive(Debug, Clone, PartialEq, Eq)]
pub struct SceneInstanceDocument {
    pub scene: String,
    pub source_entity: u64,
}

/// The scene and entity an instantiated entity copies.
#[derive(Debug, Clone, PartialEq, Eq)]
pub struct InstanceSource {
    pub scene: String,
    pub source_entity: EntityId,
}

impl InstanceSource {
    /// The instance link as a document writes it.
    pub fn to_document(&self) -> (document: SceneInstanceDocument)
        ensures
            document.scene@ == self.scene@,
            document.source_entity == self.source_entity@,
    {
        SceneInstanceDocument { scene: self.scene.clone(), source_entity: self.source_entity.raw() }
    }

    /// The instance link a document writes.
    pub fn from_document(document: &SceneInstanceDocument) -> (source: InstanceSource)
        ensures
            source.scene@ == document.scene@,
            source.source_entity@ == document.source_entity,
    {
        InstanceSource { scene: document.scene.clone(), source_entity: EntityId::new(document.source_entity) }
    }
}

/// Why a scene entity could not be resolved.
#[derive(Debug, Clone, PartialEq, Eq)]
pub enum ResolveError {
    /// The prefab component of that name does not have the expected shape.
    InvalidPrefabComponent(String),
}

impl ResolveError {
    pub open spec fn spec_message(&self) -> Seq<char> {
        match self {
            ResolveError::InvalidPrefabComponent(name) => "invalid prefab component '"@ + name@ + "'"@,
        }
    }

    /// The human-readable description of the error.
    pub fn message(&self) -> (text: String)
        ensures
            text@ == self.spec_message(),
    {
        match self {
            ResolveError::InvalidPrefabComponent(name) => {
                let mut text = "invalid prefab component '".to_owned();
                text.append(name.as_str());
                text.append("'");
                text
            },
        }
    }
}

/// A scene's value overrides a prefab's: where the override gives a value
/// that value is taken; only where it gives none does the base's survive.
pub proof fn lemma_override_value_wins(override_value: Option<Seq<char>>, base: Option<Seq<char>>)
    ensures
        override_value is Some ==> prefer(override_value, base) == override_value,
        override_value is None ==> prefer(override_value, base) == base,
{
}

/// UI image and interaction sections merge field by field: without an
/// override the prefab's section stands; where the override gives a field,
/// the merged section carries the override's value, and only where it
/// gives none does the prefab's survive; a section that ends up with no
/// field is dropped.
pub proof fn lemma_ui_sections_override_field_by_field(
    base_image: Option<(Option<Seq<char>>, Option<Seq<char>>)>,
    over_image: Option<(Option<Seq<char>>, Option<Seq<char>>)>,
    base_interaction: Option<(Option<Seq<char>>, Option<bool>)>,
    over_interaction: Option<(Option<Seq<char>>, Option<bool>)>,
)
    ensures
        over_image is None ==> spec_merge_image(base_image, over_image) == base_image,
        over_image matches Some(o) ==> (o.0 is Some ==> (spec_merge_image(base_image, over_image) matches Some(m)
            && m.0 == o.0)),
        over_image matches Some(o) ==> (o.1 is Some ==> (spec_merge_image(base_image, over_image) matches Some(m)
            && m.1 == o.1)),
        over_image matches Some(o) ==> (spec_merge_image(base_image, over_image) matches Some(m) ==> (o.0 is None
            ==> m.0 == (match base_image {
            Some(b) => b.0,
            None => None,
        }))),
        over_image matches Some(o) ==> (spec_merge_image(base_image, over_image) matches Some(m) ==> (o.1 is None
            ==> m.1 == (match base_image {
            Some(b) => b.1,
            None => None,
        }))),
        over_image is Some ==> (spec_merge_image(base_image, over_image) matches Some(m) ==> m.0 is Some || m.1
            is Some),
        over_interaction is None ==> spec_merge_interaction(base_interaction, over_interaction) == base_interaction,
        over_interaction matches Some(o) ==> (o.0 is Some ==> (spec_merge_interaction(
            base_interaction,
            over_interaction,
        ) matches Some(m) && m.0 == o.0)),
        over_interaction matches Some(o) ==> (o.1 is Some ==> (spec_merge_interaction(
            base_interaction,
            over_interaction,
        ) matches Some(m) && m.1 == o.1)),
        over_interaction matches Some(o) ==> (spec_merge_interaction(base_interaction, over_interaction) matches Some(
            m,
        ) ==> (o.0 is None ==> m.0 == (match base_interaction {
            Some(b) => b.0,
            None => None,
        }))),
        over_interaction matches Some(o) ==> (spec_merge_interaction(base_interaction, over_interaction) matches Some(
            m,
        ) ==> (o.1 is None ==> m.1 == (match base_interaction {
            Some(b) => b.1,
            None => None,
        }))),
        over_interaction is Some ==> (spec_merge_interaction(base_interaction, over_interaction) matches Some(m)
            ==> m.0 is Some || m.1 is Some),
{
}

/// The components with those of the given type name taken out, in order.
pub open spec fn without_type<C>(components: Seq<(String, C)>, component_type: Seq<char>) -> Seq<(String, C)> {
    components.filter(|component: (String, C)| component.0@ != component_type)
}

proof fn lemma_filter_push<C>(s: Seq<(String, C)>, x: (String, C), component_type: Seq<char>)
    ensures
        without_type(s.push(x), component_type) == if x.0@ != component_type {
            without_type(s, component_type).push(x)
        } else {
            without_type(s, component_type)
        },
{
    reveal(Seq::filter);
    assert(s.push(x).drop_last() =~= s);
}

/// Adds a custom component to an entity's components, replacing those of
/// the same type name: a scene's component overrides the prefab's.
pub fn override_component<C>(components: &mut Vec<(String, C)>, component_type: String, config: C)
    ensures
        final(components)@ == without_type(old(components)@, component_type@).push((component_type, config)),
{
    let mut kept: Vec<(String, C)> = Vec::new();
    let ghost original = components@;
    let mut rest: Vec<(String, C)> = Vec::new();
    std::mem::swap(&mut rest, components);
    let mut i: usize = 0;
    let total = rest.len();
    assert(original.len() == total);
    assert(original.skip(0) =~= original);
    assert(original.take(0) =~= Seq::<(String, C)>::empty());
    proof {
        reveal(Seq::filter);
    }
    while rest.len() > 0
        invariant
            i <= original.len(),
            original.len() == rest@.len() + i,
            original.len() <= usize::MAX,
            rest@ == original.skip(i as int),
            kept@ == without_type(original.take(i as int), component_type@),
        decreases rest@.len(),
    {
        let component = rest.remove(0);
        assert(component == original[i as int]);
        assert(original.take(i + 1) =~= original.take(i as int).push(component));
        assert(rest@ =~= original.skip(i + 1));
        let matches = component.0 == component_type;
        if !matches {
            kept.push(component);
        }
        proof {
            lemma_filter_push(original.take(i as int), component, component_type@);
        }
        i = i + 1;
    }
    assert(original.take(i as int) =~= original);
    kept.push((component_type, config));
    *components = kept;
}

/// After an override, exactly the last component has that type name.
pub proof fn lemma_override_leaves_one<C>(components: Seq<(String, C)>, component_type: String, config: C)
    ensures
        ({
            let after = without_type(components, component_type@).push((component_type, config));
            &&& after.last() == (component_type, config)
            &&& forall|i: int| 0 <= i < after.len() - 1 ==> (#[trigger] after[i]).0@ != component_type@
        }),
{
    let kept = without_type(components, component_type@);
    assert forall|i: int| 0 <= i < kept.len() implies (#[trigger] kept[i]).0@ != component_type@ by {
        components.lemma_filter_pred(|c: (String, C)| c.0@ != component_type@, i);
    }
}

} // verus!
