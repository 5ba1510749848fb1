//! Sprite and UI patches applied in order: each patch's fields override the
//! fields merged so far, and a section that ends up with nothing that makes
//! it one is dropped. Sizes, offsets and font sizes stay of the caller's
//! type `S`; they are carried, never read.
use vstd::prelude::*;

use crate::records::{
    merge_ui_image, merge_ui_interaction, opt_image_view, opt_interaction_view,
    spec_merge_image, spec_merge_interaction, SceneUiImageDocument, SceneUiInteractionDocument,
};

verus! {

/// The override where it has a value, else the base.
pub open spec fn either<T>(over: Option<T>, base: Option<T>) -> Option<T> {
    match over {
        Some(v) => Some(v),
        None => base,
    }
}

fn pick<T>(over: Option<T>, base: Option<T>) -> (chosen: Option<T>)
    ensures
        chosen == either(over, base),
{
    match over {
        Some(v) => Some(v),
        None => base,
    }
}

/// A sprite section as a scene entry or prefab writes it: each field may be
/// left out.
pub struct SpritePatch<S> {
    pub texture: Option<String>,
    pub width: Option<S>,
    pub height: Option<S>,
    pub source_x: Option<u32>,
    pub source_y: Option<u32>,
    pub source_width: Option<u32>,
    pub source_height: Option<u32>,
    pub layer: Option<i32>,
    pub sort_order: Option<i32>,
    pub tint: Option<String>,
}

/// A sprite section with no field.
pub open spec fn empty_sprite<S>() -> SpritePatch<S> {
    SpritePatch {
        texture: None,
        width: None,
        height: None,
        source_x: None,
        source_y: None,
        source_width: None,
        source_height: None,
        layer: None,
        sort_order: None,
        tint: None,
    }
}

/// A sprite patch over the sprite merged so far: each field is the patch's
/// where it has one, else the merged one's; the sprite is dropped when it
/// has no texture and no size.
pub open spec fn spec_merge_sprite<S>(base: Option<SpritePatch<S>>, over: SpritePatch<S>) -> Option<SpritePatch<S>> {
    let b = match base {
        Some(b) => b,
        None => empty_sprite(),
    };
    let merged = SpritePatch {
        texture: either(over.texture, b.texture),
        width: either(over.width, b.width),
        height: either(over.height, b.height),
        source_x: either(over.source_x, b.source_x),
        source_y: either(over.source_y, b.source_y),
        source_width: either(over.source_width, b.source_width),
        source_height: either(over.source_height, b.source_height),
        layer: either(over.layer, b.layer),
        sort_order: either(over.sort_order, b.sort_order),
        tint: either(over.tint, b.tint),
    };
    if merged.texture is Some || merged.width is Some || merged.height is Some {
        Some(merged)
    } else {
        None
    }
}

/// Applies a sprite patch over the sprite merged so far.
pub fn merge_sprite<S>(base: Option<SpritePatch<S>>, over: SpritePatch<S>) -> (merged: Option<SpritePatch<S>>)
    ensures
        merged == spec_merge_sprite(base, over),
{
    let ghost base_view = base;
    let ghost over_view = over;
    let b = match base {
        Some(b) => b,
        None => SpritePatch {
            texture: None,
            width: None,
            height: None,
            source_x: None,
            source_y: None,
            source_width: None,
            source_height: None,
            layer: None,
            sort_order: None,
            tint: None,
        },
    };
    let merged = SpritePatch {
        texture: pick(over.texture, b.texture),
        width: pick(over.width, b.width),
        height: pick(over.height, b.height),
        source_x: pick(over.source_x, b.source_x),
        source_y: pick(over.source_y, b.source_y),
        source_width: pick(over.source_width, b.source_width),
        source_height: pick(over.source_height, b.source_height),
        layer: pick(over.layer, b.layer),
        sort_order: pick(over.sort_order, b.sort_order),
        tint: pick(over.tint, b.tint),
    };
    if merged.texture.is_some() || merged.width.is_some() || merged.height.is_some() {
        Some(merged)
    } else {
        None
    }
}

/// The sprite that patches give when applied in order from none.
pub open spec fn spec_fold_sprites<S>(patches: Seq<SpritePatch<S>>) -> Option<SpritePatch<S>>
    decreases patches.len(),
{
    if patches.len() == 0 {
        None
    } else {
        spec_merge_sprite(spec_fold_sprites(patches.drop_last()), patches.last())
    }
}

/// Applies sprite patches in order, starting from no sprite.
pub fn fold_sprites<S>(patches: Vec<SpritePatch<S>>) -> (merged: Option<SpritePatch<S>>)
    ensures
        merged == spec_fold_sprites(patches@),
{
    let ghost all = patches@;
    let n = patches.len();
    let mut rest = patches;
    let mut merged: Option<SpritePatch<S>> = None;
    let mut i: usize = 0;
    assert(all.take(0) =~= Seq::<SpritePatch<S>>::empty());
    assert(all.skip(0) =~= all);
    while rest.len() > 0
        invariant
            all.len() == n,
            i + rest@.len() == all.len(),
            rest@ == all.skip(i as int),
            merged == spec_fold_sprites(all.take(i as int)),
        decreases rest@.len(),
    {
        let patch = rest.remove(0);
        proof {
            assert(patch == all[i as int]);
            assert(all.take(i + 1).drop_last() =~= all.take(i as int));
            assert(all.take(i + 1).last() == all[i as int]);
            assert(rest@ =~= all.skip(i + 1));
        }
        merged = merge_sprite(merged, patch);
        i = i + 1;
    }
    assert(all.take(i as int) =~= all);
    merged
}

/// A finished sprite: its texture, sizes and source rectangle as written,
/// and its layer and sort order, zero where left out.
pub struct SpriteParts<S> {
    pub texture: String,
    pub width: Option<S>,
    pub height: Option<S>,
    pub source_x: Option<u32>,
    pub source_y: Option<u32>,
    pub source_width: Option<u32>,
    pub source_height: Option<u32>,
    pub layer: i32,
    pub sort_order: i32,
    pub tint: Option<String>,
}

/// Finishes a merged sprite: one without a texture is no sprite.
pub fn finish_sprite<S>(sprite: Option<SpritePatch<S>>) -> (finished: Option<SpriteParts<S>>)
    ensures
        match sprite {
            Some(s) => match s.texture {
                Some(texture) => finished matches Some(f) && f.texture == texture && f.width == s.width
                    && f.height == s.height && f.source_x == s.source_x && f.source_y == s.source_y
                    && f.source_width == s.source_width && f.source_height == s.source_height
                    && f.layer == (match s.layer {
                    Some(l) => l,
                    None => 0,
                }) && f.sort_order == (match s.sort_order {
                    Some(o) => o,
                    None => 0,
                }) && f.tint == s.tint,
                None => finished is None,
            },
            None => finished is None,
        },
{
    let sprite = match sprite {
        Some(s) => s,
        None => return None,
    };
    let texture = match sprite.texture {
        Some(t) => t,
        None => return None,
    };
    Some(
        SpriteParts {
            texture,
            width: sprite.width,
            height: sprite.height,
            source_x: sprite.source_x,
            source_y: sprite.source_y,
            source_width: sprite.source_width,
            source_height: sprite.source_height,
            layer: match sprite.layer {
                Some(l) => l,
                None => 0,
            },
            sort_order: match sprite.sort_order {
                Some(o) => o,
                None => 0,
            },
            tint: sprite.tint,
        },
    )
}

/// A UI layout section: anchor, offsets, size and stacking order.
pub struct LayoutPatch<S, A> {
    pub anchor: Option<A>,
    pub offset_x: Option<S>,
    pub offset_y: Option<S>,
    pub width: Option<S>,
    pub height: Option<S>,
    pub z_index: Option<i32>,
}

/// A layout patch over the layout merged so far: without a patch the merged
/// layout stands; with one, each field is the patch's where it has one, else
/// the merged one's, and the layout is dropped when it has no field.
pub open spec fn spec_merge_layout<S, A>(base: Option<LayoutPatch<S, A>>, over: Option<LayoutPatch<S, A>>) -> Option<
    LayoutPatch<S, A>,
> {
    match over {
        None => base,
        Some(o) => {
            let merged = LayoutPatch {
                anchor: either(o.anchor, match base { Some(b) => b.anchor, None => None }),
                offset_x: either(o.offset_x, match base { Some(b) => b.offset_x, None => None }),
                offset_y: either(o.offset_y, match base { Some(b) => b.offset_y, None => None }),
                width: either(o.width, match base { Some(b) => b.width, None => None }),
                height: either(o.height, match base { Some(b) => b.height, None => None }),
                z_index: either(o.z_index, match base { Some(b) => b.z_index, None => None }),
            };
            if merged.anchor is Some || merged.offset_x is Some || merged.offset_y is Some || merged.width is Some
                || merged.height is Some || merged.z_index is Some {
                Some(merged)
            } else {
                None
            }
        },
    }
}

/// Applies a layout patch, if any, over the layout merged so far.
pub fn merge_layout<S, A>(base: Option<LayoutPatch<S, A>>, over: Option<LayoutPatch<S, A>>) -> (merged: Option<
    LayoutPatch<S, A>,
>)
    ensures
        merged == spec_merge_layout(base, over),
{
    let o = match over {
        Some(o) => o,
        None => return base,
    };
    let (anchor, offset_x, offset_y, width, height, z_index) = match base {
        Some(b) => (b.anchor, b.offset_x, b.offset_y, b.width, b.height, b.z_index),
        None => (None, None, None, None, None, None),
    };
    let merged = LayoutPatch {
        anchor: pick(o.anchor, anchor),
        offset_x: pick(o.offset_x, offset_x),
        offset_y: pick(o.offset_y, offset_y),
        width: pick(o.width, width),
        height: pick(o.height, height),
        z_index: pick(o.z_index, z_index),
    };
    if merged.anchor.is_some() || merged.offset_x.is_some() || merged.offset_y.is_some() || merged.width.is_some()
        || merged.height.is_some() || merged.z_index.is_some() {
        Some(merged)
    } else {
        None
    }
}

/// A UI text section: the text, its font size and its color.
pub struct TextPatch<S> {
    pub value: Option<String>,
    pub font_size: Option<S>,
    pub color: Option<String>,
}

/// A text patch over the text merged so far, field by field as for the
/// layout; the text is dropped when it has no field.
pub open spec fn spec_merge_text<S>(base: Option<TextPatch<S>>, over: Option<TextPatch<S>>) -> Option<TextPatch<S>> {
    match over {
        None => base,
        Some(o) => {
            let merged = TextPatch {
                value: either(o.value, match base { Some(b) => b.value, None => None }),
                font_size: either(o.font_size, match base { Some(b) => b.font_size, None => None }),
                color: either(o.color, match base { Some(b) => b.color, None => None }),
            };
            if merged.value is Some || merged.font_size is Some || merged.color is Some {
                Some(merged)
            } else {
                None
            }
        },
    }
}

/// Applies a text patch, if any, over the text merged so far.
pub fn merge_text<S>(base: Option<TextPatch<S>>, over: Option<TextPatch<S>>) -> (merged: Option<TextPatch<S>>)
    ensures
        merged == spec_merge_text(base, over),
{
    let o = match over {
        Some(o) => o,
        None => return base,
    };
    let (value, font_size, color) = match base {
        Some(b) => (b.value, b.font_size, b.color),
        None => (None, None, None),
    };
    let merged = TextPatch {
        value: pick(o.value, value),
        font_size: pick(o.font_size, font_size),
        color: pick(o.color, color),
    };
    if merged.value.is_some() || merged.font_size.is_some() || merged.color.is_some() {
        Some(merged)
    } else {
        None
    }
}

/// A UI section: layout, text, image and interaction, each may be left out.
pub struct UiPatch<S, A> {
    pub layout: Option<LayoutPatch<S, A>>,
    pub text: Option<TextPatch<S>>,
    pub image: Option<SceneUiImageDocument>,
    pub interaction: Option<SceneUiInteractionDocument>,
}

/// A UI section with its image and interaction as characters.
pub type UiPatchView<S, A> = (
    Option<LayoutPatch<S, A>>,
    Option<TextPatch<S>>,
    Option<(Option<Seq<char>>, Option<Seq<char>>)>,
    Option<(Option<Seq<char>>, Option<bool>)>,
);

/// The view of a UI section.
pub open spec fn ui_view<S, A>(ui: UiPatch<S, A>) -> UiPatchView<S, A> {
    (ui.layout, ui.text, opt_image_view(ui.image), opt_interaction_view(ui.interaction))
}

/// The views of UI sections, in order.
pub open spec fn ui_views<S, A>(patches: Seq<UiPatch<S, A>>) -> Seq<UiPatchView<S, A>> {
    patches.map_values(|u: UiPatch<S, A>| ui_view(u))
}

/// The view of an optional UI section.
pub open spec fn opt_ui_view<S, A>(ui: Option<UiPatch<S, A>>) -> Option<UiPatchView<S, A>> {
    match ui {
        Some(u) => Some(ui_view(u)),
        None => None,
    }
}

/// A UI patch over the UI merged so far: each of its parts merges as its
/// own section does, and the UI is dropped when no part is left.
pub open spec fn spec_merge_ui<S, A>(base: Option<UiPatchView<S, A>>, over: UiPatchView<S, A>) -> Option<
    UiPatchView<S, A>,
> {
    let b: UiPatchView<S, A> = match base {
        Some(b) => b,
        None => (None, None, None, None),
    };
    let layout = spec_merge_layout(b.0, over.0);
    let text = spec_merge_text(b.1, over.1);
    let image = spec_merge_image(b.2, over.2);
    let interaction = spec_merge_interaction(b.3, over.3);
    if layout is Some || text is Some || image is Some || interaction is Some {
        Some((layout, text, image, interaction))
    } else {
        None
    }
}

/// Applies a UI patch over the UI merged so far.
pub fn merge_ui<S, A>(base: Option<UiPatch<S, A>>, over: UiPatch<S, A>) -> (merged: Option<UiPatch<S, A>>)
    ensures
        opt_ui_view(merged) == spec_merge_ui(opt_ui_view(base), ui_view(over)),
{
    let (layout, text, image, interaction) = match base {
        Some(b) => (b.layout, b.text, b.image, b.interaction),
        None => (None, None, None, None),
    };
    let layout = merge_layout(layout, over.layout);
    let text = merge_text(text, over.text);
    let image = merge_ui_image(image, over.image);
    let interaction = merge_ui_interaction(interaction, over.interaction);
    if layout.is_some() || text.is_some() || image.is_some() || interaction.is_some() {
        Some(UiPatch { layout, text, image, interaction })
    } else {
        None
    }
}

/// The UI that patches give when applied in order from none.
pub open spec fn spec_fold_uis<S, A>(patches: Seq<UiPatchView<S, A>>) -> Option<UiPatchView<S, A>>
    decreases patches.len(),
{
    if patches.len() == 0 {
        None
    } else {
        spec_merge_ui(spec_fold_uis(patches.drop_last()), patches.last())
    }
}

/// Applies UI patches in order, starting from no UI.
pub fn fold_uis<S, A>(patches: Vec<UiPatch<S, A>>) -> (merged: Option<UiPatch<S, A>>)
    ensures
        opt_ui_view(merged) == spec_fold_uis(ui_views(patches@)),
{
    let ghost all = ui_views(patches@);
    let n = patches.len();
    let mut rest = patches;
    let mut merged: Option<UiPatch<S, A>> = None;
    let mut i: usize = 0;
    assert(all.take(0) =~= Seq::<UiPatchView<S, A>>::empty());
    assert(ui_views(rest@) =~= all.skip(0));
    while rest.len() > 0
        invariant
            all.len() == n,
            i + rest@.len() == all.len(),
            ui_views(rest@) == all.skip(i as int),
            opt_ui_view(merged) == spec_fold_uis(all.take(i as int)),
        decreases rest@.len(),
    {
        let ghost before = rest@;
        let patch = rest.remove(0);
        proof {
            assert(ui_views(before)[0] == all.skip(i as int)[0]);
            assert(ui_view(patch) == all[i as int]);
            assert(all.take(i + 1).drop_last() =~= all.take(i as int));
            assert(all.take(i + 1).last() == all[i as int]);
            assert(ui_views(rest@) =~= all.skip(i + 1)) by {
                assert forall|k: int| 0 <= k < rest@.len() implies #[trigger] ui_views(rest@)[k] == all.skip(
                    i + 1,
                )[k] by {
                    assert(rest@[k] == before[k + 1]);
                    assert(ui_views(before)[k + 1] == all.skip(i as int)[k + 1]);
                }
            }
        }
        merged = merge_ui(merged, patch);
        i = i + 1;
    }
    assert(all.take(i as int) =~= all);
    merged
}

/// A later sprite patch wins field by field: where the patch gives a field,
/// the merged sprite carries the patch's value; only where it gives none
/// does the value merged so far survive. The sprite is kept exactly when it
/// ends up with a texture or a size.
pub proof fn lemma_sprite_patch_overrides<S>(base: Option<SpritePatch<S>>, over: SpritePatch<S>)
    ensures
        (over.texture is Some || over.width is Some || over.height is Some) ==> spec_merge_sprite(base, over) is Some,
        spec_merge_sprite(base, over) is None <==> (over.texture is None && over.width is None && over.height is None
            && (base matches Some(b) ==> (b.texture is None && b.width is None && b.height is None))),
        spec_merge_sprite(base, over) matches Some(m) ==> (over.texture is Some ==> m.texture == over.texture),
        spec_merge_sprite(base, over) matches Some(m) ==> (over.texture is None ==> m.texture == (match base {
            Some(b) => b.texture,
            None => None,
        })),
        spec_merge_sprite(base, over) matches Some(m) ==> (over.width is Some ==> m.width == over.width),
        spec_merge_sprite(base, over) matches Some(m) ==> (over.width is None ==> m.width == (match base {
            Some(b) => b.width,
            None => None,
        })),
        spec_merge_sprite(base, over) matches Some(m) ==> (over.height is Some ==> m.height == over.height),
        spec_merge_sprite(base, over) matches Some(m) ==> (over.height is None ==> m.height == (match base {
            Some(b) => b.height,
            None => None,
        })),
        spec_merge_sprite(base, over) matches Some(m) ==> (over.source_x is Some ==> m.source_x == over.source_x),
        spec_merge_sprite(base, over) matches Some(m) ==> (over.source_x is None ==> m.source_x == (match base {
            Some(b) => b.source_x,
            None => None,
        })),
        spec_merge_sprite(base, over) matches Some(m) ==> (over.source_y is Some ==> m.source_y == over.source_y),
        spec_merge_sprite(base, over) matches Some(m) ==> (over.source_y is None ==> m.source_y == (match base {
            Some(b) => b.source_y,
            None => None,
        })),
        spec_merge_sprite(base, over) matches Some(m) ==> (over.source_width is Some ==> m.source_width == over.source_width),
        spec_merge_sprite(base, over) matches Some(m) ==> (over.source_width is None ==> m.source_width == (match base {
            Some(b) => b.source_width,
            None => None,
        })),
        spec_merge_sprite(base, over) matches Some(m) ==> (over.source_height is Some ==> m.source_height == over.source_height),
        spec_merge_sprite(base, over) matches Some(m) ==> (over.source_height is None ==> m.source_height == (match base {
            Some(b) => b.source_height,
            None => None,
        })),
        spec_merge_sprite(base, over) matches Some(m) ==> (over.layer is Some ==> m.layer == over.layer),
        spec_merge_sprite(base, over) matches Some(m) ==> (over.layer is None ==> m.layer == (match base {
            Some(b) => b.layer,
            None => None,
        })),
        spec_merge_sprite(base, over) matches Some(m) ==> (over.sort_order is Some ==> m.sort_order == over.sort_order),
        spec_merge_sprite(base, over) matches Some(m) ==> (over.sort_order is None ==> m.sort_order == (match base {
            Some(b) => b.sort_order,
            None => None,
        })),
        spec_merge_sprite(base, over) matches Some(m) ==> (over.tint is Some ==> m.tint == over.tint),
        spec_merge_sprite(base, over) matches Some(m) ==> (over.tint is None ==> m.tint == (match base {
            Some(b) => b.tint,
            None => None,
        })),
{
}

/// The sprite that patches applied in order give carries, for each field
/// that the last patch gives, the last patch's value.
pub proof fn lemma_last_sprite_patch_wins<S>(patches: Seq<SpritePatch<S>>)
    requires
        patches.len() > 0,
    ensures
        (patches.last().texture is Some || patches.last().width is Some || patches.last().height is Some)
            ==> spec_fold_sprites(patches) is Some,
        spec_fold_sprites(patches) matches Some(m) ==> (patches.last().texture is Some ==> m.texture == patches.last().texture),
        spec_fold_sprites(patches) matches Some(m) ==> (patches.last().width is Some ==> m.width == patches.last().width),
        spec_fold_sprites(patches) matches Some(m) ==> (patches.last().height is Some ==> m.height == patches.last().height),
        spec_fold_sprites(patches) matches Some(m) ==> (patches.last().source_x is Some ==> m.source_x == patches.last().source_x),
        spec_fold_sprites(patches) matches Some(m) ==> (patches.last().source_y is Some ==> m.source_y == patches.last().source_y),
        spec_fold_sprites(patches) matches Some(m) ==> (patches.last().source_width is Some ==> m.source_width == patches.last().source_width),
        spec_fold_sprites(patches) matches Some(m) ==> (patches.last().source_height is Some ==> m.source_height == patches.last().source_height),
        spec_fold_sprites(patches) matches Some(m) ==> (patches.last().layer is Some ==> m.layer == patches.last().layer),
        spec_fold_sprites(patches) matches Some(m) ==> (patches.last().sort_order is Some ==> m.sort_order == patches.last().sort_order),
        spec_fold_sprites(patches) matches Some(m) ==> (patches.last().tint is Some ==> m.tint == patches.last().tint),
{
    lemma_sprite_patch_overrides(spec_fold_sprites(patches.drop_last()), patches.last());
}

/// A later layout patch wins field by field, as for sprites; without a
/// patch the layout merged so far stands, and a patch that gives any field
/// keeps the layout.
pub proof fn lemma_layout_patch_overrides<S, A>(base: Option<LayoutPatch<S, A>>, over: Option<LayoutPatch<S, A>>)
    ensures
        over is None ==> spec_merge_layout(base, over) == base,
        over matches Some(o) ==> ((o.anchor is Some || o.offset_x is Some || o.offset_y is Some || o.width is Some
            || o.height is Some || o.z_index is Some) ==> spec_merge_layout(base, over) is Some),
        over matches Some(o) ==> (spec_merge_layout(base, over) matches Some(m) ==> (o.anchor is Some ==> m.anchor == o.anchor)),
        over matches Some(o) ==> (spec_merge_layout(base, over) matches Some(m) ==> (o.anchor is None ==> m.anchor == (match base {
            Some(b) => b.anchor,
            None => None,
        }))),
        over matches Some(o) ==> (spec_merge_layout(base, over) matches Some(m) ==> (o.offset_x is Some ==> m.offset_x == o.offset_x)),
        over matches Some(o) ==> (spec_merge_layout(base, over) matches Some(m) ==> (o.offset_x is None ==> m.offset_x == (match base {
            Some(b) => b.offset_x,
            None => None,
        }))),
        over matches Some(o) ==> (spec_merge_layout(base, over) matches Some(m) ==> (o.offset_y is Some ==> m.offset_y == o.offset_y)),
        over matches Some(o) ==> (spec_merge_layout(base, over) matches Some(m) ==> (o.offset_y is None ==> m.offset_y == (match base {
            Some(b) => b.offset_y,
            None => None,
        }))),
        over matches Some(o) ==> (spec_merge_layout(base, over) matches Some(m) ==> (o.width is Some ==> m.width == o.width)),
        over matches Some(o) ==> (spec_merge_layout(base, over) matches Some(m) ==> (o.width is None ==> m.width == (match base {
            Some(b) => b.width,
            None => None,
        }))),
        over matches Some(o) ==> (spec_merge_layout(base, over) matches Some(m) ==> (o.height is Some ==> m.height == o.height)),
        over matches Some(o) ==> (spec_merge_layout(base, over) matches Some(m) ==> (o.height is None ==> m.height == (match base {
            Some(b) => b.height,
            None => None,
        }))),
        over matches Some(o) ==> (spec_merge_layout(base, over) matches Some(m) ==> (o.z_index is Some ==> m.z_index == o.z_index)),
        over matches Some(o) ==> (spec_merge_layout(base, over) matches Some(m) ==> (o.z_index is None ==> m.z_index == (match base {
            Some(b) => b.z_index,
            None => None,
        }))),
{
}

/// A later text patch wins field by field, as for sprites; without a patch
/// the text merged so far stands, and a patch that gives any field keeps the
/// text.
pub proof fn lemma_text_patch_overrides<S>(base: Option<TextPatch<S>>, over: Option<TextPatch<S>>)
    ensures
        over is None ==> spec_merge_text(base, over) == base,
        over matches Some(o) ==> ((o.value is Some || o.font_size is Some || o.color is Some) ==> spec_merge_text(
            base,
            over,
        ) is Some),
        over matches Some(o) ==> (spec_merge_text(base, over) matches Some(m) ==> (o.value is Some ==> m.value == o.value)),
        over matches Some(o) ==> (spec_merge_text(base, over) matches Some(m) ==> (o.value is None ==> m.value == (match base {
            Some(b) => b.value,
            None => None,
        }))),
        over matches Some(o) ==> (spec_merge_text(base, over) matches Some(m) ==> (o.font_size is Some ==> m.font_size == o.font_size)),
        over matches Some(o) ==> (spec_merge_text(base, over) matches Some(m) ==> (o.font_size is None ==> m.font_size == (match base {
            Some(b) => b.font_size,
            None => None,
        }))),
        over matches Some(o) ==> (spec_merge_text(base, over) matches Some(m) ==> (o.color is Some ==> m.color == o.color)),
        over matches Some(o) ==> (spec_merge_text(base, over) matches Some(m) ==> (o.color is None ==> m.color == (match base {
            Some(b) => b.color,
            None => None,
        }))),
{
}

} // verus!
