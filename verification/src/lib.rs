pub mod data;

pub use data::coords::{IntCoords, IntCoords2d};
pub use data::dimensions_2d::Dimensions2d;
pub use data::layer::Layer;
pub use data::matrix::{Matrix, MatrixCell, MatrixIter};
pub use data::priority::Priority;
pub use data::ui::{Alignment, Rgb, UiAnchor};
pub mod entity;
pub mod time;

pub use entity::Entity;
pub use time::{Time, Timer};
pub mod input;

pub use input::{Input, KeyState, KeyStateData};
pub mod components;
pub mod engine_stats;

pub use components::{
    Component, ComponentKind, CustomComponent, Identity, TerminalCamera, TerminalCollider,
    TerminalCollision, TerminalCollisionBody, TerminalRenderable, TerminalRenderer,
    TerminalTextCharacter, TerminalTransform, Text, TransformTerminal, WorldText,
};
pub use engine_stats::EngineStats;
pub mod world_model;

pub use world_model::{ComponentIndexEntry, EntityRecord};
pub mod entity_manager;

pub use entity_manager::EntityManager;
pub mod query;

pub use query::{ComponentQueryData, Query, QueryResult, QueryResultList, StoredComponentList};
pub mod system;

pub use system::{System, SystemsGenerator};
pub mod game;

pub use game::{
    EVENT_AFTER_UPDATE, EVENT_BEFORE_UPDATE, EVENT_CLEANUP, EVENT_INIT, EVENT_UPDATE, Game,
    GameCommand, GameCommandQueue, GameOptions,
};
pub mod renderer;

pub use renderer::{
    Renderer, TerminalRendererMatrix, TerminalRendererMatrixCellItem, TerminalRendererOptions, TerminalRendererState,
};
pub mod ui_renderer;
pub mod systems;
pub mod behaviours;
pub mod screen_renderer;
pub mod builtin_systems;

pub use behaviours::{Behaviour, BehaviourList, Message, MessageHandler, MockFn, Renderable};
