//! Values that flow between nodes, and their types.

pub mod data_type;
pub mod data_value;
pub mod decimal;
pub mod names;
pub mod time;

pub use data_type::{DataType, DataTypeView};
pub use data_value::{DataValue, DataValueView, Error, ErrorView, ModelId, NumberText};
