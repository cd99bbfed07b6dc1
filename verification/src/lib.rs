//! A Snake simulation with a population-based trainer for tabular
//! Q-learning agents.
//!
//! The game runs on a bounded grid whose edges wrap around or are solid
//! walls. A compact state key tells an agent what its snake sees; the agent
//! chooses among three actions with an epsilon-greedy policy and learns by
//! temporal differences. A trainer runs a population of agents in epochs
//! and rebuilds it between them: from the champion after a new record or a
//! long stagnation, from the best agents otherwise.
//!
//! Numbers that are fractions elsewhere are whole numbers here: values and
//! rewards in millionths, rates in parts per million. Every function
//! carries a contract that Verus checks; the state of a game, an agent and
//! a trainer is described by a mathematical model (`World`, `Policy`,
//! `Trainer`), and the rules are relations between models.
//!
//! - `grid`, `world`, `game`: positions and headings, the rules of the
//!   game, and the executable game
//! - `encoder`: the state key
//! - `fixed`, `qrow`, `qtable`, `agent`: fixed-point numbers, action
//!   values, and the learning agent
//! - `reward`, `sim`: the reward of a step, and a step of an agent in its
//!   game
//! - `color`, `evolve`, `breed`, `trainer`: selection, variation, and the
//!   trainer
//! - `replay`, `control`: a memory of transitions, and the pacing of the
//!   host's loop
//! - `raster`, `font`, `scene`: drawing into a frame buffer
//! - `random`: the random source

pub mod agent;
pub mod breed;
pub mod color;
pub mod control;
pub mod encoder;
pub mod evolve;
pub mod fixed;
pub mod font;
pub mod game;
pub mod grid;
pub mod qrow;
pub mod qtable;
pub mod random;
pub mod raster;
pub mod replay;
pub mod reward;
pub mod scene;
pub mod sim;
pub mod trainer;
pub mod world;
