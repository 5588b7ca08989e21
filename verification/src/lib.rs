pub mod csdl;
pub mod csdl_json_reader;
pub mod csdl_xml_reader;
pub mod error;
pub mod edm;
pub mod expr;
pub mod graph;
pub mod json;
pub mod json_read_back;
pub mod parser;
pub mod path_expansion;
pub mod resolver;
pub mod serialization;
pub mod validator;
pub mod text;
pub mod tree_units;

pub use csdl::CsdlDocument;
pub use error::ReadError;
pub use serialization::CsdlFormat;
