//! A fixed-point simulation core for two-dimensional particle life.
//!
//! Point particles of a few types move in a periodic rectangular domain.
//! Each pair within the interaction radius exerts a force that depends on
//! their distance and on the attraction factor of their types; velocities
//! are damped by friction.
//!
//! Every quantity is an integer count of millionths (see [`fixed::ONE`]), so
//! that each stage of a tick has an exact arithmetic meaning: the neighbor
//! query ([`spatial`], [`neighbors`]), the accumulation of accelerations
//! ([`force`], [`acceleration`]), the integration ([`friction`],
//! [`integration`]) and the wrap into the domain ([`boundary`]). The stages
//! are put together in [`simulation`].

pub mod fixed;
pub mod natural;
pub mod vector;
pub mod random;
pub mod force;
pub mod attraction;
pub mod friction;
pub mod config;
pub mod particle;
pub mod boundary;
pub mod population;
pub mod spatial;
pub mod neighbors;
pub mod acceleration;
pub mod integration;
pub mod simulation;
