use vstd::prelude::*;

pub mod bytes;
pub mod hashing;
pub mod sorted;
pub mod sum_tree_math;
pub mod sortition_sum_tree;
pub mod sortition_sum_game;
pub mod template;
pub mod support;
pub mod spaces;
pub mod posts;
pub mod rpc;
pub mod npos;
pub mod election;
pub mod schelling_game_shared;
pub mod profile_validation;
pub mod score_game;
pub mod lex;
pub mod tags;
pub mod shared_storage;
pub mod positive_externality;
pub mod department_funding;
pub mod project_tips;
pub mod ubi;

verus! {

} // verus!
