pub mod bits;
pub mod error;
pub mod messages;
pub mod name;
pub mod numbers;
pub mod ordered_map;
pub mod complexity;
pub mod element_type;
pub mod element;
pub mod logical_transfer;
pub mod physical_transfer;
pub mod generics;
pub mod param_value;
pub mod generic_property;
pub mod signal_list;
pub mod directions;
pub mod scope_store;
pub mod link;
pub mod physical_stream;
pub mod transfer;
pub mod signals;
pub mod logical_type;
pub mod type_reference;
pub mod logical_stream;
pub mod structure;
pub mod fields;
pub mod implementation;
pub mod parameters;
pub mod interface;
pub mod parameter_kinds;
pub mod type_declaration;
pub mod streamlet;
pub mod namespace;
