use vstd::prelude::*;

verus! {

/// The error that the XML reader of `xml-rs` reports for malformed input.
#[verifier::external_type_specification]
#[verifier::external_body]
pub struct ExXmlReaderError(xml::reader::Error);

/// Why code generation fails.
#[derive(Debug, PartialEq)]
pub enum GenError {
    /// The XML reader rejected the input.
    Xml(xml::reader::Error),
    /// An element lacks an attribute that it needs.
    AttributeNotFound,
    /// A type signature ends in the middle of a type.
    UnexpectedEndOfSignature,
    /// A dict entry in a type signature is not closed by `}`.
    NoEndOfDict,
    /// A type signature holds more than one complete type.
    TypeNotEnded,
    /// A property's `access` is not `read`, `readwrite` or `write`.
    UnexpectedAccess(String),
    InterfaceStartInsideMethod,
    InterfaceStartInsideInterface,
    InterfaceEndInsideMethod,
    InterfaceEndOutsideInterface,
    MethodStartInsideMethod,
    MethodStartOutsideInterface,
    MethodEndOutsideMethod,
    MethodEndOutsideInterface,
    SignalStartInsideSignal,
    SignalStartOutsideInterface,
    SignalEndOutsideSignal,
    SignalEndOutsideInterface,
    PropertyStartInsideProperty,
    PropertyStartOutsideInterface,
    PropertyEndOutsideProperty,
    PropertyEndOutsideInterface,
    ArgOutsideMethodAndSignal,
    ArgOutsideInterface,
    /// An argument's `direction` is neither `in` nor `out`.
    InvalidDirection,
    /// The input ends inside an interface.
    UnterminatedInterface,
}

/// How a step of code generation stops early: with an error, or on a type code that
/// the generator has no Rust type for (the character is that code).
#[derive(Debug, PartialEq)]
pub enum Fault {
    Error(GenError),
    Unsupported(char),
}

/// What a [`GenError`] stands for, with the text it carries as a sequence of characters.
pub enum ErrorModel {
    Xml(xml::reader::Error),
    UnexpectedAccess(Seq<char>),
    AttributeNotFound,
    UnexpectedEndOfSignature,
    NoEndOfDict,
    TypeNotEnded,
    InterfaceStartInsideMethod,
    InterfaceStartInsideInterface,
    InterfaceEndInsideMethod,
    InterfaceEndOutsideInterface,
    MethodStartInsideMethod,
    MethodStartOutsideInterface,
    MethodEndOutsideMethod,
    MethodEndOutsideInterface,
    SignalStartInsideSignal,
    SignalStartOutsideInterface,
    SignalEndOutsideSignal,
    SignalEndOutsideInterface,
    PropertyStartInsideProperty,
    PropertyStartOutsideInterface,
    PropertyEndOutsideProperty,
    PropertyEndOutsideInterface,
    ArgOutsideMethodAndSignal,
    ArgOutsideInterface,
    InvalidDirection,
    UnterminatedInterface,
}

impl View for GenError {
    type V = ErrorModel;

    open spec fn view(&self) -> ErrorModel {
        match self {
            GenError::Xml(e) => ErrorModel::Xml(*e),
            GenError::UnexpectedAccess(v) => ErrorModel::UnexpectedAccess(v@),
            GenError::AttributeNotFound => ErrorModel::AttributeNotFound,
            GenError::UnexpectedEndOfSignature => ErrorModel::UnexpectedEndOfSignature,
            GenError::NoEndOfDict => ErrorModel::NoEndOfDict,
            GenError::TypeNotEnded => ErrorModel::TypeNotEnded,
            GenError::InterfaceStartInsideMethod => ErrorModel::InterfaceStartInsideMethod,
            GenError::InterfaceStartInsideInterface => ErrorModel::InterfaceStartInsideInterface,
            GenError::InterfaceEndInsideMethod => ErrorModel::InterfaceEndInsideMethod,
            GenError::InterfaceEndOutsideInterface => ErrorModel::InterfaceEndOutsideInterface,
            GenError::MethodStartInsideMethod => ErrorModel::MethodStartInsideMethod,
            GenError::MethodStartOutsideInterface => ErrorModel::MethodStartOutsideInterface,
            GenError::MethodEndOutsideMethod => ErrorModel::MethodEndOutsideMethod,
            GenError::MethodEndOutsideInterface => ErrorModel::MethodEndOutsideInterface,
            GenError::SignalStartInsideSignal => ErrorModel::SignalStartInsideSignal,
            GenError::SignalStartOutsideInterface => ErrorModel::SignalStartOutsideInterface,
            GenError::SignalEndOutsideSignal => ErrorModel::SignalEndOutsideSignal,
            GenError::SignalEndOutsideInterface => ErrorModel::SignalEndOutsideInterface,
            GenError::PropertyStartInsideProperty => ErrorModel::PropertyStartInsideProperty,
            GenError::PropertyStartOutsideInterface => ErrorModel::PropertyStartOutsideInterface,
            GenError::PropertyEndOutsideProperty => ErrorModel::PropertyEndOutsideProperty,
            GenError::PropertyEndOutsideInterface => ErrorModel::PropertyEndOutsideInterface,
            GenError::ArgOutsideMethodAndSignal => ErrorModel::ArgOutsideMethodAndSignal,
            GenError::ArgOutsideInterface => ErrorModel::ArgOutsideInterface,
            GenError::InvalidDirection => ErrorModel::InvalidDirection,
            GenError::UnterminatedInterface => ErrorModel::UnterminatedInterface,
        }
    }
}

/// What a [`Fault`] stands for.
pub enum FaultModel {
    Error(ErrorModel),
    Unsupported(char),
}

impl View for Fault {
    type V = FaultModel;

    open spec fn view(&self) -> FaultModel {
        match self {
            Fault::Error(e) => FaultModel::Error(e@),
            Fault::Unsupported(c) => FaultModel::Unsupported(*c),
        }
    }
}

/// The message of an error; for the XML reader's errors, the reader's own message.
pub open spec fn error_text(e: ErrorModel) -> Option<Seq<char>> {
    match e {
        ErrorModel::Xml(_) => None,
        ErrorModel::UnexpectedAccess(v) => Some("Unexpected access value "@ + v),
        ErrorModel::AttributeNotFound => Some("attribute not found"@),
        ErrorModel::UnexpectedEndOfSignature => Some("unexpected end of signature"@),
        ErrorModel::NoEndOfDict => Some("No end of dict"@),
        ErrorModel::TypeNotEnded => Some("Expected type to end"@),
        ErrorModel::InterfaceStartInsideMethod => Some("Start of Interface inside method"@),
        ErrorModel::InterfaceStartInsideInterface => Some("Start of Interface inside interface"@),
        ErrorModel::InterfaceEndInsideMethod => Some("End of Interface inside method"@),
        ErrorModel::InterfaceEndOutsideInterface => Some("End of Interface outside interface"@),
        ErrorModel::MethodStartInsideMethod => Some("Start of method inside method"@),
        ErrorModel::MethodStartOutsideInterface => Some("Start of method outside interface"@),
        ErrorModel::MethodEndOutsideMethod => Some("End of method outside method"@),
        ErrorModel::MethodEndOutsideInterface => Some("End of method outside interface"@),
        ErrorModel::SignalStartInsideSignal => Some("Start of signal inside signal"@),
        ErrorModel::SignalStartOutsideInterface => Some("Start of signal outside interface"@),
        ErrorModel::SignalEndOutsideSignal => Some("End of signal outside signal"@),
        ErrorModel::SignalEndOutsideInterface => Some("End of signal outside interface"@),
        ErrorModel::PropertyStartInsideProperty => Some("Start of property inside property"@),
        ErrorModel::PropertyStartOutsideInterface => Some("Start of property outside interface"@),
        ErrorModel::PropertyEndOutsideProperty => Some("End of property outside property"@),
        ErrorModel::PropertyEndOutsideInterface => Some("End of property outside interface"@),
        ErrorModel::ArgOutsideMethodAndSignal => Some("Start of arg outside method and signal"@),
        ErrorModel::ArgOutsideInterface => Some("Start of arg outside interface"@),
        ErrorModel::InvalidDirection => Some("Invalid direction"@),
        ErrorModel::UnterminatedInterface => Some("Unterminated interface"@),
    }
}

/// The message of an error of the XML reader of `xml-rs`, as its `Display` implementation
/// writes it. What the message says is not stated here.
#[verifier::external_body]
fn xml_error_text(e: &xml::reader::Error) -> String {
    format!("{}", e)
}

impl GenError {
    /// The message of this error.
    pub fn message(&self) -> (r: String)
        ensures
            error_text(self@) matches Some(t) ==> r@ == t,
    {
        match self {
            GenError::Xml(e) => xml_error_text(e),
            GenError::UnexpectedAccess(v) => {
                let mut r = String::from_str("Unexpected access value ");
                r.append(v.as_str());
                r
            },
            GenError::AttributeNotFound => String::from_str("attribute not found"),
            GenError::UnexpectedEndOfSignature => String::from_str("unexpected end of signature"),
            GenError::NoEndOfDict => String::from_str("No end of dict"),
            GenError::TypeNotEnded => String::from_str("Expected type to end"),
            GenError::InterfaceStartInsideMethod => String::from_str("Start of Interface inside method"),
            GenError::InterfaceStartInsideInterface => String::from_str("Start of Interface inside interface"),
            GenError::InterfaceEndInsideMethod => String::from_str("End of Interface inside method"),
            GenError::InterfaceEndOutsideInterface => String::from_str("End of Interface outside interface"),
            GenError::MethodStartInsideMethod => String::from_str("Start of method inside method"),
            GenError::MethodStartOutsideInterface => String::from_str("Start of method outside interface"),
            GenError::MethodEndOutsideMethod => String::from_str("End of method outside method"),
            GenError::MethodEndOutsideInterface => String::from_str("End of method outside interface"),
            GenError::SignalStartInsideSignal => String::from_str("Start of signal inside signal"),
            GenError::SignalStartOutsideInterface => String::from_str("Start of signal outside interface"),
            GenError::SignalEndOutsideSignal => String::from_str("End of signal outside signal"),
            GenError::SignalEndOutsideInterface => String::from_str("End of signal outside interface"),
            GenError::PropertyStartInsideProperty => String::from_str("Start of property inside property"),
            GenError::PropertyStartOutsideInterface => String::from_str("Start of property outside interface"),
            GenError::PropertyEndOutsideProperty => String::from_str("End of property outside property"),
            GenError::PropertyEndOutsideInterface => String::from_str("End of property outside interface"),
            GenError::ArgOutsideMethodAndSignal => String::from_str("Start of arg outside method and signal"),
            GenError::ArgOutsideInterface => String::from_str("Start of arg outside interface"),
            GenError::InvalidDirection => String::from_str("Invalid direction"),
            GenError::UnterminatedInterface => String::from_str("Unterminated interface"),
        }
    }
}

} // verus!
