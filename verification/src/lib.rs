use vstd::prelude::*;

pub mod asm_param;
pub mod assembler;
pub mod assembly;
pub mod clef;
pub mod control_flow;
pub mod decode;
pub mod emit;
pub mod fill;
pub mod flow;
pub mod flow_loops;
pub mod flow_nest;
pub mod fold;
pub mod ir;
pub mod lines;
pub mod link;
pub mod lowering;
pub mod name_map;
pub mod number_text;
pub mod object;
pub mod param;
pub mod pseudo;
pub mod read_back;
pub mod register_allocation;
pub mod register_assign;
pub mod register_groups;
pub mod section;
pub mod simple_instruction;
pub mod spec_table;
pub mod template;
pub mod template_text;
pub mod text;
pub mod transform;
