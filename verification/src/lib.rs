//! Verified logic of a set of Substrate lessons: an ERC-20 token pallet, a
//! kitties pallet with per-owner linked lists, the decisions of a small echo
//! server and of a command-line tool.
use vstd::prelude::*;

pub mod dispatch;
pub mod dna;
pub mod echo;
pub mod erc20;
pub mod kitties;
pub mod linked_list;
pub mod number;
pub mod print_info;

verus! {

} // verus!
