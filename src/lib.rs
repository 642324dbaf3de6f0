//! Concurrent and parallel evaluation of lazy sequences of element computations.
//!
//! A [`Deluge`] hands out unevaluated element computations one at a time. The
//! adapters in this crate reshape such a sequence without evaluating anything,
//! and the drivers decide which computations are loaded, in which order results
//! are delivered, and when a driver is finished.
pub mod all;
pub mod all_par;
pub mod any;
pub mod any_par;
pub mod chain;
pub mod collect;
pub mod collect_par;
pub mod count;
pub mod deluge;
pub mod deluge_ext;
pub mod filter;
pub mod filter_map;
pub mod fold;
pub mod fold_par;
pub mod indexable;
pub mod indexed;
pub mod into_deluge;
pub mod iter;
pub mod last;
pub mod map;
pub mod ordered;
pub mod preloaded;
pub mod take;
pub mod zip;

pub use all::{All, Verdict};
pub use all_par::AllPar;
pub use any::Any;
pub use any_par::AnyPar;
pub use chain::Chain;
pub use collect::{Collect, Emit};
pub use collect_par::{worker_concurrency, CollectPar, WorkerState};
pub use count::count;
pub use deluge::Deluge;
pub use deluge_ext::{DelugeBoolExt, DelugeExt};
pub use filter::{Filter, FilterStep};
pub use filter_map::{FilterMap, FilterMapStep};
pub use fold::Fold;
pub use fold_par::FoldPar;
pub use indexable::{Advance, IndexableStream, Lookup};
pub use indexed::IndexedFuture;
pub use into_deluge::{iter_array, iter_range, IntoDeluge};
pub use iter::{iter, Iter, Ready};
pub use last::Last;
pub use map::{MapDeluge, MapStep};
pub use ordered::{Delivery, OrderedResults, Slot};
pub use preloaded::PreloadedFutures;
pub use take::{First, Take};
pub use zip::{pair_of, Zip, ZipStep};
