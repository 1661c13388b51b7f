//! Text-level analyses behind a Python type checker's rules.
pub mod abstract_super;
pub mod alias_cycles;
pub mod annotations;
pub mod arity;
pub mod ast;
pub mod default_factory;
pub mod default_references;
pub mod conformance;
pub mod constructor;
pub mod deprecated;
pub mod assoc;
pub mod base_variance;
pub mod callable_calls;
pub mod callable_subtyping;
pub mod flow_union;
pub mod generator;
pub mod generator_mismatch;
pub mod generic_calls;
pub mod generic_text;
pub mod init_self;
pub mod hierarchy;
pub mod initvar;
pub mod initvar_access;
pub mod instance_attrs;
pub mod literal_assign;
pub mod literal_string;
pub mod literal_values;
pub mod module;
pub mod names;
pub mod numbers;
pub mod position;
pub mod protocol_variance;
pub mod protocol_members;
pub mod protocol_overlap;
pub mod protocol_violation;
pub mod self_location;
pub mod slots;
pub mod super_abstract;
pub mod text;
pub mod tuple_index;
pub mod type_is;
pub mod typed_dict;
pub mod typeguard;
pub mod typevar_defaults;
pub mod typevar_order;
pub mod typevar_scope;
pub mod variance;
