//! Recovery of function prototypes from storage locations: which registers
//! and stack slots carry parameters and return values, under which calling
//! convention, at function entries and at call sites.
pub mod actions;
pub mod active;
pub mod argued;
pub mod aritylive;
pub mod arranged;
pub mod asked;
pub mod assign;
pub mod blended;
pub mod byteset;
pub mod callpass;
pub mod callresult;
pub mod callsite;
pub mod callspec;
pub mod chains;
pub mod classes;
pub mod commit;
pub mod deadarg;
pub mod decide;
pub mod declare;
pub mod disjoint;
pub mod dtype;
pub mod effects;
pub mod encode;
pub mod enforced;
pub mod entry;
pub mod entrymap;
pub mod error;
pub mod evidence;
pub mod exclusive;
pub mod fillin;
pub mod filled;
pub mod fitted;
pub mod flow;
pub mod forced;
pub mod formed;
pub mod gains;
pub mod gapless;
pub mod gathered;
pub mod graph;
pub mod grouped;
pub mod held;
pub mod inputs;
pub mod joins;
pub mod judged;
pub mod layout;
pub mod link;
pub mod listbuild;
pub mod merge;
pub mod model;
pub mod noted;
pub mod num;
pub mod opcode;
pub mod options;
pub mod paramlist;
pub mod passes;
pub mod paths;
pub mod pieced;
pub mod pieces;
pub mod preferred;
pub mod preserves;
pub mod probe;
pub mod proto;
pub mod provided;
pub mod query;
pub mod recover;
pub mod redirected;
pub mod resolve;
pub mod restrict;
pub mod returned;
pub mod ruled;
pub mod rules;
pub mod script;
pub mod sort;
pub mod space;
pub mod storage;
pub mod spans;
pub mod store;
pub mod taken_in;
pub mod trial;
pub mod verdict;
pub mod widest;
pub mod wired;
