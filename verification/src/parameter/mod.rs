//! Parameters of nodes: constants, or values that arrive over a connection.

pub mod connection;
pub mod dynamic_port;

use std::time::Instant;
use vstd::prelude::*;
use vstd::string::StringExecFns;

use crate::types::{DataType, DataTypeView, DataValue, DataValueView, Error};
use crate::types::names::lookup;
use crate::workflow::context::{get_port, ports_view, PortValues};

pub use connection::{Connection, ConnectionGraph, ConnectionView, NodeId, PortId};
pub use dynamic_port::{DynamicPorts, Port, PortView};

verus! {

/// Where the value of a parameter comes from, as the editor shows it.
#[derive(Debug, Clone, Copy, PartialEq, Eq)]
pub enum ValueSource {
    UserInput,
    Connection,
    Default,
    Computed,
}

/// How the editor shows a parameter.
#[derive(Debug, Clone, PartialEq, Eq)]
pub struct UiState {
    pub visible: bool,
    pub enabled: bool,
    pub value_source: ValueSource,
    pub error_message: Option<String>,
}

/// How a parameter gets its value.
#[derive(Debug, Clone, PartialEq, Eq)]
pub enum ParamMode<T> {
    /// The value itself.
    Constant(T),
    /// The value on a port of the node, or else the value that was seen
    /// there last.
    Connection { port_id: String, cached_value: Option<T> },
}

/// What a parameter is resolved against.
pub struct ExecutionContext {
    pub node_id: String,
    pub port_values: PortValues,
    pub global_vars: PortValues,
    pub execution_time: Instant,
}

/// A parameter of a node.
#[derive(Debug, Clone, PartialEq, Eq)]
pub struct ParameterInstance {
    pub def_id: String,
    pub mode: ParamMode<DataValue>,
    pub ui_state: UiState,
}

/// Mathematical model of the mode of a parameter.
pub enum ParamModeView {
    Constant(DataValueView),
    Connection { port_id: Seq<char>, cached_value: Option<DataValueView> },
}

/// An optional value as contracts speak of it.
pub open spec fn value_view(value: Option<DataValue>) -> Option<DataValueView> {
    match value {
        Some(v) => Some(v@),
        None => None,
    }
}

impl View for ParamMode<DataValue> {
    type V = ParamModeView;

    open spec fn view(&self) -> ParamModeView {
        match self {
            ParamMode::Constant(v) => ParamModeView::Constant(v@),
            ParamMode::Connection { port_id, cached_value } => ParamModeView::Connection {
                port_id: port_id@,
                cached_value: value_view(*cached_value),
            },
        }
    }
}

/// The message of a parameter that finds no value on its port.
pub open spec fn port_missing_message(port_id: Seq<char>) -> Seq<char> {
    "Port '"@ + port_id + "' not found in context"@
}

/// The value of a parameter in this mode: a constant itself; for a
/// connection the value on the port, or else the cached value. `None`
/// where a connection has neither.
pub open spec fn resolved(mode: ParamModeView, port_values: Seq<(Seq<char>, DataValueView)>)
    -> Option<DataValueView> {
    match mode {
        ParamModeView::Constant(v) => Some(v),
        ParamModeView::Connection { port_id, cached_value } => match lookup(
            port_values,
            port_id,
        ) {
            Some(v) => Some(v),
            None => cached_value,
        },
    }
}

/// The type of a parameter in this mode: that of the constant, or of the
/// cached value; a number where a connection has cached nothing.
pub open spec fn mode_type(mode: ParamModeView) -> DataTypeView {
    match mode {
        ParamModeView::Constant(v) => v.data_type(),
        ParamModeView::Connection { cached_value, .. } => match cached_value {
            Some(v) => v.data_type(),
            None => DataTypeView::Number,
        },
    }
}

/// Whether a value of type `actual` can stand where `expected` is asked
/// for. A type stands for itself; numbers, truth values and text stand for
/// one another; lists and streams go by their elements.
pub open spec fn compatible(actual: DataTypeView, expected: DataTypeView) -> bool
    decreases actual,
{
    if actual == expected {
        true
    } else {
        match (actual, expected) {
            (DataTypeView::Number, DataTypeView::Boolean) => true,
            (DataTypeView::Boolean, DataTypeView::Number) => true,
            (DataTypeView::Number, DataTypeView::Text) => true,
            (DataTypeView::Text, DataTypeView::Number) => true,
            (DataTypeView::Boolean, DataTypeView::Text) => true,
            (DataTypeView::Text, DataTypeView::Boolean) => true,
            (DataTypeView::List(a), DataTypeView::List(b)) => compatible(*a, *b),
            (DataTypeView::Stream(a), DataTypeView::Stream(b)) => compatible(*a, *b),
            _ => false,
        }
    }
}

/// The source that the editor shows for a mode that was switched to.
pub open spec fn source_of(mode: ParamModeView) -> ValueSource {
    match mode {
        ParamModeView::Constant(_) => ValueSource::UserInput,
        ParamModeView::Connection { .. } => ValueSource::Connection,
    }
}

impl ParameterInstance {
    /// A parameter with a constant value, shown as visible, enabled and at
    /// its default.
    pub fn new(def_id: String, initial_value: DataValue) -> (r: Self)
        ensures
            r.def_id == def_id,
            r.mode == ParamMode::Constant(initial_value),
            r.ui_state.visible,
            r.ui_state.enabled,
            r.ui_state.value_source == ValueSource::Default,
            r.ui_state.error_message is None,
    {
        Self {
            def_id,
            mode: ParamMode::Constant(initial_value),
            ui_state: UiState {
                visible: true,
                enabled: true,
                value_source: ValueSource::Default,
                error_message: None,
            },
        }
    }

    /// The value of the parameter in `ctx`; see [`resolved`]. A connection
    /// with no value on its port and none cached fails.
    pub fn resolve(&self, ctx: &ExecutionContext) -> (r: Result<DataValue, Error>)
        ensures
            match r {
                Ok(v) => resolved(self.mode@, ports_view(ctx.port_values@)) == Some(v@),
                Err(e) => resolved(self.mode@, ports_view(ctx.port_values@)) is None && (
                e matches Error::TypeMismatch(msg) && self.mode@ is Connection && msg@
                    == port_missing_message(self.mode@->port_id)),
            },
    {
        match &self.mode {
            ParamMode::Constant(value) => Ok(value.duplicate()),
            ParamMode::Connection { port_id, cached_value } => {
                match get_port(&ctx.port_values, port_id.as_str()) {
                    Some(value) => Ok(value.duplicate()),
                    None => match cached_value {
                        Some(cached) => Ok(cached.duplicate()),
                        None => {
                            let mut msg = String::from_str("Port '");
                            msg.append(port_id.as_str());
                            msg.append("' not found in context");
                            Err(Error::TypeMismatch(msg))
                        },
                    },
                }
            },
        }
    }

    /// Puts the parameter into `new_mode`, and shows where its value comes
    /// from now.
    pub fn switch_mode(&mut self, new_mode: ParamMode<DataValue>)
        ensures
            final(self).mode == new_mode,
            final(self).def_id == old(self).def_id,
            final(self).ui_state.value_source == source_of(new_mode@),
            final(self).ui_state.visible == old(self).ui_state.visible,
            final(self).ui_state.enabled == old(self).ui_state.enabled,
            final(self).ui_state.error_message == old(self).ui_state.error_message,
    {
        let source = match &new_mode {
            ParamMode::Constant(_) => ValueSource::UserInput,
            ParamMode::Connection { .. } => ValueSource::Connection,
        };
        self.mode = new_mode;
        self.ui_state.value_source = source;
    }

    /// Connects the parameter to the port `port_id`, with nothing cached.
    pub fn switch_to_connection(&mut self, port_id: String)
        ensures
            final(self).mode == (ParamMode::<DataValue>::Connection {
                port_id,
                cached_value: None,
            }),
            final(self).def_id == old(self).def_id,
            final(self).ui_state.value_source == ValueSource::Connection,
    {
        let new_mode = ParamMode::Connection { port_id, cached_value: None };
        self.switch_mode(new_mode);
    }

    /// Gives the parameter the constant `value`.
    pub fn switch_to_constant(&mut self, value: DataValue)
        ensures
            final(self).mode == ParamMode::Constant(value),
            final(self).def_id == old(self).def_id,
            final(self).ui_state.value_source == ValueSource::UserInput,
    {
        let new_mode = ParamMode::Constant(value);
        self.switch_mode(new_mode);
    }

    /// Caches `value` for a connected parameter; a constant stays as it is.
    pub fn update_cached_value(&mut self, value: DataValue)
        ensures
            final(self).def_id == old(self).def_id,
            final(self).ui_state == old(self).ui_state,
            match old(self).mode {
                ParamMode::Constant(_) => final(self).mode == old(self).mode,
                ParamMode::Connection { port_id, .. } => final(self).mode == (ParamMode::<
                    DataValue,
                >::Connection { port_id, cached_value: Some(value) }),
            },
    {
        match &mut self.mode {
            ParamMode::Connection { cached_value, .. } => {
                *cached_value = Some(value);
            },
            ParamMode::Constant(_) => {},
        }
    }

    /// The type of the parameter; see [`mode_type`].
    pub fn get_type(&self) -> (r: DataType)
        ensures
            r@ == mode_type(self.mode@),
    {
        match &self.mode {
            ParamMode::Constant(value) => value.data_type(),
            ParamMode::Connection { cached_value, .. } => match cached_value {
                Some(value) => value.data_type(),
                None => DataType::Number,
            },
        }
    }

    /// Whether the parameter can stand where `expected_type` is asked for.
    pub fn is_type_compatible(&self, expected_type: &DataType) -> (r: bool)
        ensures
            r == compatible(mode_type(self.mode@), expected_type@),
    {
        let actual_type = self.get_type();
        self.is_types_compatible(&actual_type, expected_type)
    }

    /// Whether a value of type `actual` can stand where `expected` is asked
    /// for.
    pub fn is_types_compatible(&self, actual: &DataType, expected: &DataType) -> (r: bool)
        ensures
            r == compatible(actual@, expected@),
        decreases actual,
    {
        if actual.same(expected) {
            return true;
        }
        match (actual, expected) {
            (DataType::Number, DataType::Boolean) => true,
            (DataType::Boolean, DataType::Number) => true,
            (DataType::Number, DataType::Text) => true,
            (DataType::Text, DataType::Number) => true,
            (DataType::Boolean, DataType::Text) => true,
            (DataType::Text, DataType::Boolean) => true,
            (DataType::List(a), DataType::List(b)) => self.is_types_compatible(&**a, &**b),
            (DataType::Stream(a), DataType::Stream(b)) => self.is_types_compatible(&**a, &**b),
            _ => false,
        }
    }
}

} // verus!
