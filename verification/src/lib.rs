//! Adaptive graphing of two-variable relations over a raster image.
//!
//! The engine repeatedly subdivides image regions, classifies each block by
//! interval evaluation of the relation, and settles pixels as proven true,
//! proven false, or uncertain. Interval evaluation itself is supplied by a
//! collaborator through the [`Relation`] and [`IntervalOps`] traits;
//! everything the engine decides from those results is proved here: settled
//! pixels are terminal, the block queue returns exactly what was pushed,
//! and no single evaluation can settle a region both ways.

mod ast;
mod block;
mod eval;
mod graph;
mod image;
mod interval;
mod queue;
mod visit;

pub use crate::ast::BinaryOp;
pub use crate::ast::Expr;
pub use crate::ast::ExprId;
pub use crate::ast::ExprKind;
pub use crate::ast::NaryOp;
pub use crate::ast::Rational;
pub use crate::ast::UnaryOp;
pub use crate::ast::UNINIT_EXPR_ID;
pub use crate::ast::ValueType;
pub use crate::ast::VarSet;
pub use crate::block::BranchBound;
pub use crate::block::BranchInterval;
pub use crate::block::ImageBlock;
pub use crate::block::MAX_DISCRETE_N_THETA;
pub use crate::block::MIN_K;
pub use crate::block::SubdivisionDir;
pub use crate::eval::Decoration;
pub use crate::eval::DecSignSet;
pub use crate::eval::EvalResult;
pub use crate::eval::EvalResultMask;
pub use crate::eval::FormIndex;
pub use crate::eval::RelOp;
pub use crate::eval::SIGN_NAN;
pub use crate::eval::SIGN_NEG;
pub use crate::eval::SIGN_POS;
pub use crate::eval::SIGN_ZERO;
pub use crate::eval::SignSet;
pub use crate::eval::StaticForm;
pub use crate::eval::StaticFormKind;
pub use crate::eval::TermIndex;
pub use crate::graph::EvalCache;
pub use crate::graph::Graph;
pub use crate::graph::GraphingError;
pub use crate::graph::GraphingErrorKind;
pub use crate::graph::GraphingStatistics;
pub use crate::graph::IntervalOps;
pub use crate::graph::Relation;
pub use crate::graph::RelationType;
pub use crate::image::Image;
pub use crate::image::MAX_IMAGE_WIDTH;
pub use crate::image::PixelIndex;
pub use crate::image::PixelState;
pub use crate::image::QueuedBlockIndex;
pub use crate::interval::InexactRegion;
pub use crate::interval::IvBits;
pub use crate::interval::Region;
pub use crate::queue::ImageBlockQueue;
pub use crate::visit::AssignId;
pub use crate::visit::cmp_terms;
pub use crate::visit::CollectStatic;
pub use crate::visit::FindMaximalScalarTerms;
pub use crate::visit::Flatten;
pub use crate::visit::FoldConstant;
pub use crate::visit::Parametrize;
pub use crate::visit::PostTransform;
pub use crate::visit::PreTransform;
pub use crate::visit::ReplaceAll;
pub use crate::visit::RewriteRule;
pub use crate::visit::SortTerms;
pub use crate::visit::StaticTerm;
pub use crate::visit::StaticTermKind;
pub use crate::visit::SubDivTransform;
pub use crate::visit::Substitute;
pub use crate::visit::Transform;
pub use crate::visit::UpdateMetadata;
pub use crate::visit::UpdatePolarPeriod;
pub use crate::visit::Visit;
pub use crate::visit::VisitMut;

use vstd::prelude::*;

verus! {

} // verus!
