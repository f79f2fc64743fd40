//! Core logic of a command-line gRPC client: descriptor models and lookup,
//! proto-text rendering, request parsing, metadata handling, argument
//! validation, and the decision logic of the invocation engine.

mod bank;
mod cli;
mod connection;
mod descmodel;
mod desctext;
mod errors;
mod export;
mod format;
mod invoke;
mod metadata;
mod parsers;
mod sources;
mod status;
mod strutil;
mod template;
mod validate;

pub use bank::Account;
pub use bank::AccountProto;
pub use bank::AccountStore;
pub use bank::Timestamp;
pub use bank::Transaction;
pub use bank::dollars;
pub use cli::Cli;
pub use cli::Command;
pub use cli::ParsedArgs;
pub use cli::normalize_args;
pub use descmodel::DescriptorPool;
pub use descmodel::EnumModel;
pub use descmodel::EnumValueModel;
pub use descmodel::ExtensionModel;
pub use descmodel::FieldKind;
pub use descmodel::FieldModel;
pub use descmodel::FileModel;
pub use descmodel::FileOptionsModel;
pub use descmodel::JsType;
pub use descmodel::MessageModel;
pub use descmodel::MethodModel;
pub use descmodel::OneofModel;
pub use descmodel::ServiceModel;
pub use descmodel::SymbolDescriptor;
pub use descmodel::find_symbol_in_pool;
pub use descmodel::list_services;
pub use descmodel::list_methods;
pub use connection::ConnectionConfig;
pub use connection::build_user_agent;
pub use format::Format;
pub use format::FormatOptions;
pub use format::normalize_json_floats;
pub use invoke::DefaultEventHandler;
pub use invoke::InvokeConfig;
pub use invoke::InvokeResult;
pub use invoke::StreamingShape;
pub use invoke::split_method_name;
pub use invoke::status_exit_code;
pub use invoke::status_stanza;
pub use invoke::streaming_shape;
pub use invoke::summary_line;
pub use invoke::unary_request_count;
pub use metadata::HeaderValue;
pub use metadata::MetadataEntry;
pub use metadata::expand_headers;
pub use metadata::filter_grpc_internal_headers;
pub use metadata::metadata_from_headers;
pub use metadata::metadata_to_string;
pub use metadata::try_base64_decode;
pub use parsers::JsonRequestParser;
pub use parsers::ParseError;
pub use parsers::RequestParser;
pub use parsers::TextRequestParser;
pub use sources::ReflectionVersion;
pub use sources::composite_find;
pub use sources::composite_list_services;
pub use sources::is_unimplemented;
pub use sources::latch_version;
pub use sources::merge_extensions;
pub use sources::missing_dependencies;
pub use sources::next_attempt;
pub use sources::should_fall_back;
pub use status::AnyDetail;
pub use status::decode_status_details;
pub use status::status_details_stanza;
pub use desctext::format_enum;
pub use desctext::format_enum_value;
pub use desctext::format_extension;
pub use desctext::format_field;
pub use desctext::format_field_options;
pub use desctext::format_message;
pub use desctext::format_method;
pub use desctext::format_oneof;
pub use desctext::file_format_enum;
pub use desctext::file_format_field;
pub use desctext::file_format_message;
pub use desctext::file_format_method;
pub use desctext::file_format_oneof;
pub use desctext::file_format_service;
pub use desctext::format_proto_file;
pub use desctext::format_reserved_ranges;
pub use desctext::format_service;
pub use desctext::get_descriptor_text;
pub use desctext::kind_to_type_name;
pub use desctext::short_name;
pub use desctext::to_lower_camel_case;
pub use errors::GrpcurlError;
pub use errors::StatusCode;
pub use errors::code_from_i32;
pub use errors::status_code_name;
pub use export::transitive_file_closure;
pub use template::TemplateMessage;
pub use template::TemplateValue;
pub use template::make_template;
pub use validate::validate;
