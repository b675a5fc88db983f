//! A small version-control and text-processing toolbox over plain values.

pub mod applying;
pub mod areas;
pub mod arriving;
pub mod bases;
pub mod bytes;
pub mod combine;
pub mod committing;
pub mod common;
pub mod compare;
pub mod configuration;
pub mod console;
pub mod dates;
pub mod deeds;
pub mod diff;
pub mod digests;
pub mod encoding;
pub mod excerpts;
pub mod flags;
pub mod git;
pub mod globs;
pub mod graph;
pub mod grep;
pub mod hashes;
pub mod hashing;
pub mod history;
pub mod ignore;
pub mod importing;
pub mod inspecting;
pub mod joining;
pub mod journals;
pub mod keeping;
pub mod lineage;
pub mod listing;
pub mod logging;
pub mod makefile;
pub mod merging;
pub mod moves;
pub mod moving;
pub mod names;
pub mod numbers;
pub mod objects;
pub mod order;
pub mod outcomes;
pub mod patterns;
pub mod pausing;
pub mod picking;
pub mod placing;
pub mod pretty;
pub mod progress;
pub mod reading;
pub mod rebasing;
pub mod recipes;
pub mod recording;
pub mod records;
pub mod references;
pub mod registry;
pub mod replaying;
pub mod repo;
pub mod reporting;
pub mod restoring;
pub mod revisions;
pub mod revset;
pub mod rewinding;
pub mod searching;
pub mod settings;
pub mod showing;
pub mod stages;
pub mod staging;
pub mod stashing;
pub mod status;
pub mod staying;
pub mod storage;
pub mod stowing;
pub mod switching;
pub mod syntax;
pub mod system;
pub mod tagging;
pub mod telling;
pub mod text;
pub mod tidings;
pub mod topology;
pub mod trees;
pub mod turning;
pub mod unified;
pub mod wildcards;
pub mod worktree;
