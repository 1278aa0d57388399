use vstd::prelude::*;
use vstd::string::StringExecFns;

use crate::data::coords::IntCoords2d;
use crate::data::dimensions_2d::Dimensions2d;
use crate::data::layer::Layer;
use crate::data::ui::{Alignment, Rgb, UiAnchor};
use crate::engine_stats::EngineStats;
use crate::entity::Entity;
use crate::input::Input;
use crate::renderer::TerminalRendererState;
use crate::time::Time;

verus! {

/// Positional data for a world in the terminal where it's 2D and strictly gridded.
#[derive(Copy, Clone, PartialEq, Eq, Structural, Debug)]
pub struct TerminalTransform {
    pub coords: IntCoords2d,
}

/// Positional data for a terminal world (the older name of `TerminalTransform`).
#[derive(Copy, Clone, PartialEq, Eq, Structural, Debug)]
pub struct TransformTerminal {
    pub coords: IntCoords2d,
}

/// Data to describe how to render something in the terminal.
#[derive(Copy, Clone, PartialEq, Eq, Structural, Debug)]
pub struct TerminalRenderer {
    pub display: char,
    pub layer: Layer,
    pub foreground_color: Option<Rgb>,
    pub background_color: Option<Rgb>,
}

/// A character on a layer (the older, colorless form of `TerminalRenderer`).
#[derive(Copy, Clone, PartialEq, Eq, Structural, Debug)]
pub struct TerminalRenderable {
    pub display: char,
    pub layer: Layer,
}

impl TerminalRenderable {
    pub fn new(display: char, layer: Layer) -> (r: Self)
        ensures
            r == (TerminalRenderable { display, layer }),
    {
        Self { display, layer }
    }

    pub fn layer(&self) -> (r: &Layer)
        ensures
            *r == self.layer,
    {
        &self.layer
    }
}

/// A camera looking at the terminal world.
#[derive(Copy, Clone, PartialEq, Eq, Structural, Debug)]
pub struct TerminalCamera {
    /// The amount of the world that will be visible to the camera.
    pub field_of_view: Dimensions2d,
    /// Whether this is the main camera. There should only ever be one main camera in the world.
    pub is_main: bool,
}

/// Marks that an entity in the world is capable of colliding with other `TerminalCollider`s.
#[derive(Copy, Clone, PartialEq, Eq, Structural, Debug)]
pub struct TerminalCollider {
    /// The collision layer this collider is on.
    pub layer: Layer,
    /// Whether the collider is active. An inactive collider generates no collisions.
    pub is_active: bool,
}

/// One of the two participants of a collision.
pub type TerminalCollisionBody = (Entity, TerminalCollider);

/// Represents a collision between two `TerminalCollider`s, with the entities that collided.
#[derive(Copy, Clone, Debug)]
pub struct TerminalCollision {
    pub bodies: [TerminalCollisionBody; 2],
}

/// The index of the first body of `c` on `layer`, if any.
pub open spec fn first_body_on_layer(c: TerminalCollision, layer: Layer) -> Option<int> {
    if c.bodies[0].1.layer == layer {
        Some(0)
    } else if c.bodies[1].1.layer == layer {
        Some(1)
    } else {
        None
    }
}

impl TerminalCollision {
    /// Whether one body is on `collision_layer1` and a body of another entity is on
    /// `collision_layer2`.
    pub fn is_collision_between(&self, collision_layer1: Layer, collision_layer2: Layer) -> (r: bool)
        ensures
            r == (first_body_on_layer(*self, collision_layer1) matches Some(f) && exists|j: int|
                0 <= j < 2 && self.bodies[j].1.layer == collision_layer2 && self.bodies[j].0
                    != self.bodies[f].0),
    {
        let first = if self.bodies[0].1.layer == collision_layer1 {
            Some(0usize)
        } else if self.bodies[1].1.layer == collision_layer1 {
            Some(1usize)
        } else {
            None
        };
        match first {
            Some(f) => {
                let first_entity = self.bodies[f].0;
                let r = (self.bodies[0].1.layer == collision_layer2 && self.bodies[0].0 != first_entity)
                    || (self.bodies[1].1.layer == collision_layer2 && self.bodies[1].0 != first_entity);
                proof {
                    if r {
                        if self.bodies[0].1.layer == collision_layer2 && self.bodies[0].0 != first_entity {
                            assert(0 <= 0int < 2);
                        } else {
                            assert(0 <= 1int < 2);
                        }
                    }
                }
                r
            },
            None => false,
        }
    }

    /// The first body that's on the specified layer.
    pub fn get_body_on_layer(&self, collision_layer: Layer) -> (r: Option<&TerminalCollisionBody>)
        ensures
            r == (match first_body_on_layer(*self, collision_layer) {
                Some(f) => Some(&self.bodies[f]),
                None => None,
            }),
    {
        if self.bodies[0].1.layer == collision_layer {
            Some(&self.bodies[0])
        } else if self.bodies[1].1.layer == collision_layer {
            Some(&self.bodies[1])
        } else {
            None
        }
    }

    /// The entity of the first body that's on the specified layer.
    pub fn get_entity_on_layer(&self, collision_layer: Layer) -> (r: Option<Entity>)
        ensures
            r == (match first_body_on_layer(*self, collision_layer) {
                Some(f) => Some(self.bodies[f].0),
                None => None,
            }),
    {
        if let Some((entity, _)) = self.get_body_on_layer(collision_layer) {
            Some(*entity)
        } else {
            None
        }
    }
}

/// Text UI positioned relative to the main camera.
#[derive(Debug)]
pub struct Text {
    pub value: String,
    pub anchor: UiAnchor,
    pub justification: Alignment,
    pub offset: IntCoords2d,
    pub foreground_color: Option<Rgb>,
    pub background_color: Option<Rgb>,
}

impl Clone for Text {
    fn clone(&self) -> (r: Self)
        ensures
            r == *self,
    {
        Text {
            value: self.value.clone(),
            anchor: self.anchor,
            justification: self.justification,
            offset: self.offset,
            foreground_color: self.foreground_color,
            background_color: self.background_color,
        }
    }
}

/// Text UI that's rendered in the world space rather than a camera's screen space.
#[derive(Debug)]
pub struct WorldText {
    pub value: String,
    pub justification: Alignment,
    pub offset: IntCoords2d,
    pub foreground_color: Option<Rgb>,
    pub background_color: Option<Rgb>,
}

impl Clone for WorldText {
    fn clone(&self) -> (r: Self)
        ensures
            r == *self,
    {
        WorldText {
            value: self.value.clone(),
            justification: self.justification,
            offset: self.offset,
            foreground_color: self.foreground_color,
            background_color: self.background_color,
        }
    }
}

/// Identifying information that gives entities meaningful identifiers.
#[derive(Debug)]
pub struct Identity {
    pub id: String,
    pub name: String,
}

impl Clone for Identity {
    fn clone(&self) -> (r: Self)
        ensures
            r == *self,
    {
        Identity { id: self.id.clone(), name: self.name.clone() }
    }
}

/// Marker for the entities that the UI renderer creates to draw text.
#[derive(Copy, Clone, PartialEq, Eq, Structural, Debug)]
pub struct TerminalTextCharacter {}

/// A component whose type the game defines itself: its name and its data.
pub struct CustomComponent<U> {
    pub name: String,
    pub data: U,
}

impl<U> CustomComponent<U> {
    pub fn new(name: String, data: U) -> (r: Self)
        ensures
            r.name == name,
            r.data == data,
    {
        CustomComponent { name, data }
    }
}

/// Every kind of data that an entity can hold. Each entity holds at most one component of each
/// name.
pub enum Component<U> {
    TerminalTransform(TerminalTransform),
    TerminalRenderer(TerminalRenderer),
    TerminalCamera(TerminalCamera),
    TerminalCollider(TerminalCollider),
    TerminalCollision(TerminalCollision),
    TerminalTextCharacter(TerminalTextCharacter),
    Text(Text),
    WorldText(WorldText),
    Identity(Identity),
    Input(Input),
    Time(Time),
    EngineStats(EngineStats),
    TerminalRendererState(TerminalRendererState),
    Custom(CustomComponent<U>),
}

/// `b` is a copy of `a`: equal, except that a custom component's data is a clone of the original.
pub open spec fn clone_of<U: Clone>(a: Component<U>, b: Component<U>) -> bool {
    match (a, b) {
        (Component::Custom(x), Component::Custom(y)) => x.name == y.name && cloned::<U>(x.data, y.data),
        (Component::Input(x), Component::Input(y)) => x.same_keys(&y),
        (Component::EngineStats(x), Component::EngineStats(y)) => x.same_stats(&y),
        (Component::TerminalRendererState(x), Component::TerminalRendererState(y)) => x.same_state(&y),
        _ => a == b,
    }
}

impl<U> Component<U> {
    /// The name under which the component is stored on an entity.
    pub open spec fn spec_name(&self) -> Seq<char> {
        match self {
            Component::TerminalTransform(_) => "TerminalTransform"@,
            Component::TerminalRenderer(_) => "TerminalRenderer"@,
            Component::TerminalCamera(_) => "TerminalCamera"@,
            Component::TerminalCollider(_) => "TerminalCollider"@,
            Component::TerminalCollision(_) => "TerminalCollision"@,
            Component::TerminalTextCharacter(_) => "TerminalTextCharacter"@,
            Component::Text(_) => "Text"@,
            Component::WorldText(_) => "WorldText"@,
            Component::Identity(_) => "Identity"@,
            Component::Input(_) => "Input"@,
            Component::Time(_) => "Time"@,
            Component::EngineStats(_) => "EngineStats"@,
            Component::TerminalRendererState(_) => "TerminalRendererState"@,
            Component::Custom(c) => c.name@,
        }
    }

    /// The name under which the component is stored on an entity.
    pub fn component_name(&self) -> (r: String)
        ensures
            r@ == self.spec_name(),
    {
        match self {
            Component::TerminalTransform(_) => String::from_str("TerminalTransform"),
            Component::TerminalRenderer(_) => String::from_str("TerminalRenderer"),
            Component::TerminalCamera(_) => String::from_str("TerminalCamera"),
            Component::TerminalCollider(_) => String::from_str("TerminalCollider"),
            Component::TerminalCollision(_) => String::from_str("TerminalCollision"),
            Component::TerminalTextCharacter(_) => String::from_str("TerminalTextCharacter"),
            Component::Text(_) => String::from_str("Text"),
            Component::WorldText(_) => String::from_str("WorldText"),
            Component::Identity(_) => String::from_str("Identity"),
            Component::Input(_) => String::from_str("Input"),
            Component::Time(_) => String::from_str("Time"),
            Component::EngineStats(_) => String::from_str("EngineStats"),
            Component::TerminalRendererState(_) => String::from_str("TerminalRendererState"),
            Component::Custom(c) => c.name.clone(),
        }
    }
}

impl<U: Clone> Clone for Component<U> {
    fn clone(&self) -> (r: Self)
        ensures
            clone_of(*self, r),
    {
        match self {
            Component::TerminalTransform(c) => Component::TerminalTransform(*c),
            Component::TerminalRenderer(c) => Component::TerminalRenderer(*c),
            Component::TerminalCamera(c) => Component::TerminalCamera(*c),
            Component::TerminalCollider(c) => Component::TerminalCollider(*c),
            Component::TerminalCollision(c) => Component::TerminalCollision(*c),
            Component::TerminalTextCharacter(c) => Component::TerminalTextCharacter(*c),
            Component::Text(c) => Component::Text(c.clone()),
            Component::WorldText(c) => Component::WorldText(c.clone()),
            Component::Identity(c) => Component::Identity(c.clone()),
            Component::Input(c) => Component::Input(c.clone()),
            Component::Time(c) => Component::Time(*c),
            Component::EngineStats(c) => Component::EngineStats(c.clone()),
            Component::TerminalRendererState(c) => Component::TerminalRendererState(c.clone()),
            Component::Custom(c) => Component::Custom(
                CustomComponent { name: c.name.clone(), data: c.data.clone() },
            ),
        }
    }
}

/// A kind of component that can be picked out of a `Component` by its type.
pub trait ComponentKind<U>: Sized {
    /// The component of this kind held by `c`, if it holds one.
    spec fn spec_pick(c: &Component<U>) -> Option<&Self>;

    /// The component of this kind held by `c`, if it holds one.
    fn pick(c: &Component<U>) -> (r: Option<&Self>)
        ensures
            r == Self::spec_pick(c);
}

impl<U> ComponentKind<U> for TerminalTransform {
    open spec fn spec_pick(c: &Component<U>) -> Option<&Self> {
        match c {
            Component::TerminalTransform(x) => Some(x),
            _ => None,
        }
    }

    fn pick(c: &Component<U>) -> (r: Option<&Self>) {
        match c {
            Component::TerminalTransform(x) => Some(x),
            _ => None,
        }
    }
}

impl<U> ComponentKind<U> for TerminalRenderer {
    open spec fn spec_pick(c: &Component<U>) -> Option<&Self> {
        match c {
            Component::TerminalRenderer(x) => Some(x),
            _ => None,
        }
    }

    fn pick(c: &Component<U>) -> (r: Option<&Self>) {
        match c {
            Component::TerminalRenderer(x) => Some(x),
            _ => None,
        }
    }
}

impl<U> ComponentKind<U> for TerminalCamera {
    open spec fn spec_pick(c: &Component<U>) -> Option<&Self> {
        match c {
            Component::TerminalCamera(x) => Some(x),
            _ => None,
        }
    }

    fn pick(c: &Component<U>) -> (r: Option<&Self>) {
        match c {
            Component::TerminalCamera(x) => Some(x),
            _ => None,
        }
    }
}

impl<U> ComponentKind<U> for TerminalCollider {
    open spec fn spec_pick(c: &Component<U>) -> Option<&Self> {
        match c {
            Component::TerminalCollider(x) => Some(x),
            _ => None,
        }
    }

    fn pick(c: &Component<U>) -> (r: Option<&Self>) {
        match c {
            Component::TerminalCollider(x) => Some(x),
            _ => None,
        }
    }
}

impl<U> ComponentKind<U> for TerminalCollision {
    open spec fn spec_pick(c: &Component<U>) -> Option<&Self> {
        match c {
            Component::TerminalCollision(x) => Some(x),
            _ => None,
        }
    }

    fn pick(c: &Component<U>) -> (r: Option<&Self>) {
        match c {
            Component::TerminalCollision(x) => Some(x),
            _ => None,
        }
    }
}

impl<U> ComponentKind<U> for Text {
    open spec fn spec_pick(c: &Component<U>) -> Option<&Self> {
        match c {
            Component::Text(x) => Some(x),
            _ => None,
        }
    }

    fn pick(c: &Component<U>) -> (r: Option<&Self>) {
        match c {
            Component::Text(x) => Some(x),
            _ => None,
        }
    }
}

impl<U> ComponentKind<U> for WorldText {
    open spec fn spec_pick(c: &Component<U>) -> Option<&Self> {
        match c {
            Component::WorldText(x) => Some(x),
            _ => None,
        }
    }

    fn pick(c: &Component<U>) -> (r: Option<&Self>) {
        match c {
            Component::WorldText(x) => Some(x),
            _ => None,
        }
    }
}

impl<U> ComponentKind<U> for Identity {
    open spec fn spec_pick(c: &Component<U>) -> Option<&Self> {
        match c {
            Component::Identity(x) => Some(x),
            _ => None,
        }
    }

    fn pick(c: &Component<U>) -> (r: Option<&Self>) {
        match c {
            Component::Identity(x) => Some(x),
            _ => None,
        }
    }
}

impl<U> ComponentKind<U> for Input {
    open spec fn spec_pick(c: &Component<U>) -> Option<&Self> {
        match c {
            Component::Input(x) => Some(x),
            _ => None,
        }
    }

    fn pick(c: &Component<U>) -> (r: Option<&Self>) {
        match c {
            Component::Input(x) => Some(x),
            _ => None,
        }
    }
}

impl<U> ComponentKind<U> for Time {
    open spec fn spec_pick(c: &Component<U>) -> Option<&Self> {
        match c {
            Component::Time(x) => Some(x),
            _ => None,
        }
    }

    fn pick(c: &Component<U>) -> (r: Option<&Self>) {
        match c {
            Component::Time(x) => Some(x),
            _ => None,
        }
    }
}

impl<U> ComponentKind<U> for EngineStats {
    open spec fn spec_pick(c: &Component<U>) -> Option<&Self> {
        match c {
            Component::EngineStats(x) => Some(x),
            _ => None,
        }
    }

    fn pick(c: &Component<U>) -> (r: Option<&Self>) {
        match c {
            Component::EngineStats(x) => Some(x),
            _ => None,
        }
    }
}

impl<U> ComponentKind<U> for TerminalRendererState {
    open spec fn spec_pick(c: &Component<U>) -> Option<&Self> {
        match c {
            Component::TerminalRendererState(x) => Some(x),
            _ => None,
        }
    }

    fn pick(c: &Component<U>) -> (r: Option<&Self>) {
        match c {
            Component::TerminalRendererState(x) => Some(x),
            _ => None,
        }
    }
}

} // verus!
