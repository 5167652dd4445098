use vstd::prelude::*;
use vstd::string::StringExecFns;

verus! {

/// The type of a value that a port carries.
#[derive(Debug, PartialEq, Eq)]
pub enum DataType {
    Number,
    Text,
    Boolean,
    Path,
    Binary,
    List(Box<DataType>),
    Dict(String, Box<DataType>),
    Stream(Box<DataType>),
    Model,
}

/// Mathematical model of a [`DataType`]: the same tree, with the key name of
/// a dictionary as a sequence of characters.
pub enum DataTypeView {
    Number,
    Text,
    Boolean,
    Path,
    Binary,
    List(Box<DataTypeView>),
    Dict(Seq<char>, Box<DataTypeView>),
    Stream(Box<DataTypeView>),
    Model,
}

impl DataType {
    /// The model of this type.
    pub open spec fn model(&self) -> DataTypeView
        decreases self,
    {
        match self {
            DataType::Number => DataTypeView::Number,
            DataType::Text => DataTypeView::Text,
            DataType::Boolean => DataTypeView::Boolean,
            DataType::Path => DataTypeView::Path,
            DataType::Binary => DataTypeView::Binary,
            DataType::List(inner) => DataTypeView::List(Box::new(inner.model())),
            DataType::Dict(key, inner) => DataTypeView::Dict(key@, Box::new(inner.model())),
            DataType::Stream(inner) => DataTypeView::Stream(Box::new(inner.model())),
            DataType::Model => DataTypeView::Model,
        }
    }
}

impl View for DataType {
    type V = DataTypeView;

    open spec fn view(&self) -> DataTypeView {
        self.model()
    }
}

impl DataTypeView {
    /// The printed name of a type: the variant's name, with the element type
    /// (and, for a dictionary, the key name) in parentheses.
    pub open spec fn name(self) -> Seq<char>
        decreases self,
    {
        match self {
            DataTypeView::Number => "Number"@,
            DataTypeView::Text => "Text"@,
            DataTypeView::Boolean => "Boolean"@,
            DataTypeView::Path => "Path"@,
            DataTypeView::Binary => "Binary"@,
            DataTypeView::List(inner) => "List("@ + inner.name() + ")"@,
            DataTypeView::Dict(key, inner) => "Dict("@ + key + ", "@ + inner.name() + ")"@,
            DataTypeView::Stream(inner) => "Stream("@ + inner.name() + ")"@,
            DataTypeView::Model => "Model"@,
        }
    }
}

impl Clone for DataType {
    fn clone(&self) -> (r: Self)
        ensures
            r@ == self@,
        decreases self,
    {
        match self {
            DataType::Number => DataType::Number,
            DataType::Text => DataType::Text,
            DataType::Boolean => DataType::Boolean,
            DataType::Path => DataType::Path,
            DataType::Binary => DataType::Binary,
            DataType::List(inner) => DataType::List(Box::new((**inner).clone())),
            DataType::Dict(key, inner) => DataType::Dict(key.clone(), Box::new((**inner).clone())),
            DataType::Stream(inner) => DataType::Stream(Box::new((**inner).clone())),
            DataType::Model => DataType::Model,
        }
    }
}

impl DataType {
    /// Whether two types are the same tree.
    pub fn same(&self, other: &DataType) -> (r: bool)
        ensures
            r == (self@ == other@),
        decreases self,
    {
        match (self, other) {
            (DataType::Number, DataType::Number) => true,
            (DataType::Text, DataType::Text) => true,
            (DataType::Boolean, DataType::Boolean) => true,
            (DataType::Path, DataType::Path) => true,
            (DataType::Binary, DataType::Binary) => true,
            (DataType::List(a), DataType::List(b)) => (**a).same(&**b),
            (DataType::Dict(ka, a), DataType::Dict(kb, b)) => *ka == *kb && (**a).same(&**b),
            (DataType::Stream(a), DataType::Stream(b)) => (**a).same(&**b),
            (DataType::Model, DataType::Model) => true,
            _ => false,
        }
    }

    /// The printed name of the type, such as `List(Number)` or `Dict(key, Text)`.
    pub fn to_string(&self) -> (r: String)
        ensures
            r@ == self@.name(),
        decreases self,
    {
        match self {
            DataType::Number => String::from_str("Number"),
            DataType::Text => String::from_str("Text"),
            DataType::Boolean => String::from_str("Boolean"),
            DataType::Path => String::from_str("Path"),
            DataType::Binary => String::from_str("Binary"),
            DataType::List(inner) => {
                let mut s = String::from_str("List(");
                let part = (**inner).to_string();
                s.append(part.as_str());
                s.append(")");
                s
            },
            DataType::Dict(key, inner) => {
                let mut s = String::from_str("Dict(");
                s.append(key.as_str());
                s.append(", ");
                let part = (**inner).to_string();
                s.append(part.as_str());
                s.append(")");
                s
            },
            DataType::Stream(inner) => {
                let mut s = String::from_str("Stream(");
                let part = (**inner).to_string();
                s.append(part.as_str());
                s.append(")");
                s
            },
            DataType::Model => String::from_str("Model"),
        }
    }
}

} // verus!
