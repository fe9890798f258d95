//! Spawning of blueprints: reusable object templates that are loaded,
//! instantiated at an anchor object and merged into it, nested to any depth.
//!
//! An instance passes through a fixed sequence of stages. The
//! [`registry::BlueprintRegistry`] holds the instances that are alive; the
//! steps in [`pipeline`] take an instance from one stage to the next. A step
//! is handed what it needs to know of the asset loader and of the scene graph
//! as plain values, and hands back the [`commands::Command`]s that it wants
//! carried out there; notifications are queued in the registry.
//!
//! - [`components`]: the attributes that mark an instance, and the notifications.
//! - [`metadata`]: the auxiliary asset list in the metadata of a sub-scene.
//! - [`assets`]: the assets an instance waits for, and its progress.
//! - [`hierarchy`]: nested instances, their roots, and the wrapper node.
//! - [`instance`]: the stages of one instance and its steps.
//! - [`registry`], [`pipeline`]: the instances that are alive and the steps of a tick.
//! - [`scene`]: what the commands mean for the scene graph.
//! - [`laws`]: what holds of the pipeline at every step.
pub mod assets;
pub mod commands;
pub mod components;
pub mod hierarchy;
pub mod instance;
pub mod laws;
pub mod metadata;
pub mod pipeline;
pub mod registry;
pub mod scene;
