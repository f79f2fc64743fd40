use vstd::prelude::*;
use crate::errors::GrpcurlError;
use crate::strutil::str_eq;

verus! {

/// The JavaScript representation option of a numeric field.
#[derive(Debug, Clone, Copy, PartialEq, Eq, Structural)]
pub enum JsType {
    JsString,
    JsNumber,
}

/// The kind of value a field holds. Message and enum kinds carry the
/// fully-qualified name of their type.
#[derive(Debug)]
pub enum FieldKind {
    Double,
    Float,
    Int64,
    Uint64,
    Int32,
    Fixed64,
    Fixed32,
    Bool,
    Str,
    Bytes,
    Uint32,
    Sfixed32,
    Sfixed64,
    Sint32,
    Sint64,
    MessageType(String),
    EnumType(String),
}

/// One field of a message, with the pieces of its descriptor that the
/// renderers and the template builder read.
#[derive(Debug)]
pub struct FieldModel {
    pub name: String,
    pub full_name: String,
    pub number: u32,
    pub kind: FieldKind,
    pub repeated: bool,
    /// Map fields carry their entry's key and value kinds.
    pub map_kinds: Option<(Box<FieldKind>, Box<FieldKind>)>,
    /// The index of the one-of this field belongs to, if any.
    pub oneof_index: Option<u32>,
    /// Set on proto3 `optional` fields, whose one-of is synthetic.
    pub proto3_optional: bool,
    pub is_group: bool,
    pub deprecated: bool,
    pub packed: Option<bool>,
    pub jstype: Option<JsType>,
    /// The declared JSON name, when the descriptor carries one.
    pub json_name: Option<String>,
}

/// One declared one-of of a message.
#[derive(Debug)]
pub struct OneofModel {
    pub name: String,
    pub full_name: String,
}

/// One value of an enum.
#[derive(Debug)]
pub struct EnumValueModel {
    pub name: String,
    pub full_name: String,
    pub number: i32,
}

/// One enum, with its values in declaration order.
#[derive(Debug)]
pub struct EnumModel {
    pub name: String,
    pub full_name: String,
    pub values: Vec<EnumValueModel>,
}

/// One message, with its fields, one-ofs and nested types in declaration
/// order. Reserved ranges carry their exclusive end, as descriptors do.
#[derive(Debug)]
pub struct MessageModel {
    pub name: String,
    pub full_name: String,
    pub fields: Vec<FieldModel>,
    pub oneofs: Vec<OneofModel>,
    pub nested_messages: Vec<MessageModel>,
    pub nested_enums: Vec<EnumModel>,
    pub reserved_ranges: Vec<(i32, i32)>,
    pub reserved_names: Vec<String>,
    pub is_map_entry: bool,
}

/// One method of a service.
#[derive(Debug)]
pub struct MethodModel {
    pub name: String,
    pub full_name: String,
    pub input_type: String,
    pub output_type: String,
    pub client_streaming: bool,
    pub server_streaming: bool,
}

/// One service, with its methods in declaration order.
#[derive(Debug)]
pub struct ServiceModel {
    pub name: String,
    pub full_name: String,
    pub methods: Vec<MethodModel>,
}

/// One extension field declared at file level.
#[derive(Debug)]
pub struct ExtensionModel {
    pub name: String,
    pub full_name: String,
    pub number: u32,
    pub kind: FieldKind,
    pub repeated: bool,
    /// The fully-qualified name of the extended message.
    pub extendee: String,
}

/// The file-level options that the proto renderer emits when set.
#[derive(Debug)]
pub struct FileOptionsModel {
    pub java_package: Option<String>,
    pub java_outer_classname: Option<String>,
    pub java_multiple_files: bool,
    pub go_package: Option<String>,
    pub csharp_namespace: Option<String>,
    pub objc_class_prefix: Option<String>,
    pub php_namespace: Option<String>,
    pub ruby_package: Option<String>,
    pub swift_prefix: Option<String>,
    pub cc_enable_arenas: bool,
    /// The optimize mode number from the descriptor, when set.
    pub optimize_for: Option<i32>,
}

/// One proto file: its path, package, imports, options and members, all
/// in declaration order.
#[derive(Debug)]
pub struct FileModel {
    pub name: String,
    pub package: String,
    pub syntax: String,
    pub dependencies: Vec<String>,
    pub public_dependency: Vec<u32>,
    pub weak_dependency: Vec<u32>,
    pub options: FileOptionsModel,
    pub messages: Vec<MessageModel>,
    pub enums: Vec<EnumModel>,
    pub services: Vec<ServiceModel>,
    pub extensions: Vec<ExtensionModel>,
}

/// A registry of file descriptors supporting lookup by fully-qualified
/// symbol name and by file path.
#[derive(Debug)]
pub struct DescriptorPool {
    pub files: Vec<FileModel>,
}

/// A resolved symbol: the kind a fully-qualified name turned out to
/// denote, borrowed from the pool, with the file that holds it.
#[derive(Debug)]
pub enum SymbolDescriptor<'a> {
    Service(&'a FileModel, &'a ServiceModel),
    Method(&'a FileModel, &'a MethodModel),
    Message(&'a FileModel, &'a MessageModel),
    Enum(&'a FileModel, &'a EnumModel),
    Field(&'a FileModel, &'a FieldModel),
    Extension(&'a FileModel, &'a ExtensionModel),
    OneOf(&'a FileModel, &'a MessageModel, &'a OneofModel),
    EnumValue(&'a FileModel, &'a EnumValueModel),
    File(&'a FileModel),
}

/// Whether a message with this full name stands in `m` or one of its
/// nested messages.
pub open spec fn message_matches(m: MessageModel, name: Seq<char>) -> bool
    decreases m,
{
    m.full_name@ == name || exists|i: int|
        0 <= i < m.nested_messages@.len() && message_matches(
            #[trigger] m.nested_messages@[i],
            name,
        )
}

/// Whether an enum with this full name stands in `m` or one of its nested
/// messages.
pub open spec fn message_has_enum(m: MessageModel, name: Seq<char>) -> bool
    decreases m,
{
    (exists|i: int| 0 <= i < m.nested_enums@.len() && (#[trigger] m.nested_enums@[i]).full_name@
        == name) || exists|i: int|
        0 <= i < m.nested_messages@.len() && message_has_enum(
            #[trigger] m.nested_messages@[i],
            name,
        )
}

/// Whether the pool holds a service with this full name.
pub open spec fn has_service(files: Seq<FileModel>, name: Seq<char>) -> bool {
    exists|i: int, j: int|
        #![trigger files[i].services@[j].full_name]
        0 <= i < files.len() && 0 <= j < files[i].services@.len()
            && files[i].services@[j].full_name@ == name
}

/// Whether the pool holds a message with this full name, nested ones
/// included.
pub open spec fn has_message(files: Seq<FileModel>, name: Seq<char>) -> bool {
    exists|i: int, j: int|
        #![trigger message_matches(files[i].messages@[j], name)]
        0 <= i < files.len() && 0 <= j < files[i].messages@.len() && message_matches(
            files[i].messages@[j],
            name,
        )
}

/// Whether the pool holds an enum with this full name, nested ones
/// included.
pub open spec fn has_enum(files: Seq<FileModel>, name: Seq<char>) -> bool {
    (exists|i: int, j: int|
        #![trigger files[i].enums@[j].full_name]
        0 <= i < files.len() && 0 <= j < files[i].enums@.len() && files[i].enums@[j].full_name@
            == name) || exists|i: int, j: int|
        #![trigger message_has_enum(files[i].messages@[j], name)]
        0 <= i < files.len() && 0 <= j < files[i].messages@.len() && message_has_enum(
            files[i].messages@[j],
            name,
        )
}

/// Whether the pool holds an extension with this full name.
pub open spec fn has_extension(files: Seq<FileModel>, name: Seq<char>) -> bool {
    exists|i: int, j: int|
        #![trigger files[i].extensions@[j].full_name]
        0 <= i < files.len() && 0 <= j < files[i].extensions@.len()
            && files[i].extensions@[j].full_name@ == name
}

/// Whether the pool holds a file with this path.
pub open spec fn has_file(files: Seq<FileModel>, name: Seq<char>) -> bool {
    exists|i: int| 0 <= i < files.len() && (#[trigger] files[i]).name@ == name
}

/// Whether this file value stands in the pool.
pub open spec fn file_in_pool(files: Seq<FileModel>, f: FileModel) -> bool {
    exists|i: int| 0 <= i < files.len() && #[trigger] files[i] == f
}

impl<'a> SymbolDescriptor<'a> {
    /// The fully-qualified name of this symbol (for a file, its path).
    pub fn full_name(&self) -> (r: &'a str)
        ensures
            r@ == spec_full_name(*self),
    {
        match self {
            SymbolDescriptor::Service(_, d) => d.full_name.as_str(),
            SymbolDescriptor::Method(_, d) => d.full_name.as_str(),
            SymbolDescriptor::Message(_, d) => d.full_name.as_str(),
            SymbolDescriptor::Enum(_, d) => d.full_name.as_str(),
            SymbolDescriptor::Field(_, d) => d.full_name.as_str(),
            SymbolDescriptor::Extension(_, d) => d.full_name.as_str(),
            SymbolDescriptor::OneOf(_, _, d) => d.full_name.as_str(),
            SymbolDescriptor::EnumValue(_, d) => d.full_name.as_str(),
            SymbolDescriptor::File(f) => f.name.as_str(),
        }
    }

    /// The human-readable kind label of this symbol, as printed by
    /// `describe`.
    pub fn type_label(&self) -> (r: &'static str)
        ensures
            r@ == spec_type_label(*self),
    {
        match self {
            SymbolDescriptor::Service(_, _) => "a service",
            SymbolDescriptor::Method(_, _) => "a method",
            SymbolDescriptor::Message(_, d) => {
                if d.is_map_entry {
                    "the entry type for a map field"
                } else {
                    "a message"
                }
            },
            SymbolDescriptor::Enum(_, _) => "an enum",
            SymbolDescriptor::Field(_, d) => {
                if d.is_group {
                    "the type of a group field"
                } else {
                    "a field"
                }
            },
            SymbolDescriptor::Extension(_, _) => "an extension",
            SymbolDescriptor::OneOf(_, _, _) => "a one-of",
            SymbolDescriptor::EnumValue(_, _) => "an enum value",
            SymbolDescriptor::File(_) => "a file",
        }
    }

    /// This symbol's message descriptor, when it is a message.
    pub fn as_message(&self) -> (r: Option<&'a MessageModel>)
        ensures
            (match *self {
                SymbolDescriptor::Message(_, d) => r == Some(d),
                _ => r is None,
            }),
    {
        match self {
            SymbolDescriptor::Message(_, d) => Some(d),
            _ => None,
        }
    }

    /// This symbol's service descriptor, when it is a service.
    pub fn as_service(&self) -> (r: Option<&'a ServiceModel>)
        ensures
            (match *self {
                SymbolDescriptor::Service(_, d) => r == Some(d),
                _ => r is None,
            }),
    {
        match self {
            SymbolDescriptor::Service(_, d) => Some(d),
            _ => None,
        }
    }

    /// This symbol's method descriptor, when it is a method.
    pub fn as_method(&self) -> (r: Option<&'a MethodModel>)
        ensures
            (match *self {
                SymbolDescriptor::Method(_, d) => r == Some(d),
                _ => r is None,
            }),
    {
        match self {
            SymbolDescriptor::Method(_, d) => Some(d),
            _ => None,
        }
    }

    /// The file descriptor that holds this symbol.
    pub fn parent_file(&self) -> (r: &'a FileModel)
        ensures
            r == spec_parent_file(*self),
    {
        match self {
            SymbolDescriptor::Service(f, _) => f,
            SymbolDescriptor::Method(f, _) => f,
            SymbolDescriptor::Message(f, _) => f,
            SymbolDescriptor::Enum(f, _) => f,
            SymbolDescriptor::Field(f, _) => f,
            SymbolDescriptor::Extension(f, _) => f,
            SymbolDescriptor::OneOf(f, _, _) => f,
            SymbolDescriptor::EnumValue(f, _) => f,
            SymbolDescriptor::File(f) => f,
        }
    }
}

/// The fully-qualified name of a symbol (for a file, its path).
pub open spec fn spec_full_name(s: SymbolDescriptor) -> Seq<char> {
    match s {
        SymbolDescriptor::Service(_, d) => d.full_name@,
        SymbolDescriptor::Method(_, d) => d.full_name@,
        SymbolDescriptor::Message(_, d) => d.full_name@,
        SymbolDescriptor::Enum(_, d) => d.full_name@,
        SymbolDescriptor::Field(_, d) => d.full_name@,
        SymbolDescriptor::Extension(_, d) => d.full_name@,
        SymbolDescriptor::OneOf(_, _, d) => d.full_name@,
        SymbolDescriptor::EnumValue(_, d) => d.full_name@,
        SymbolDescriptor::File(f) => f.name@,
    }
}

/// The kind label of a symbol.
pub open spec fn spec_type_label(s: SymbolDescriptor) -> Seq<char> {
    match s {
        SymbolDescriptor::Service(_, _) => "a service"@,
        SymbolDescriptor::Method(_, _) => "a method"@,
        SymbolDescriptor::Message(_, d) => if d.is_map_entry {
            "the entry type for a map field"@
        } else {
            "a message"@
        },
        SymbolDescriptor::Enum(_, _) => "an enum"@,
        SymbolDescriptor::Field(_, d) => if d.is_group {
            "the type of a group field"@
        } else {
            "a field"@
        },
        SymbolDescriptor::Extension(_, _) => "an extension"@,
        SymbolDescriptor::OneOf(_, _, _) => "a one-of"@,
        SymbolDescriptor::EnumValue(_, _) => "an enum value"@,
        SymbolDescriptor::File(f) => "a file"@,
    }
}

/// The file a symbol belongs to.
pub open spec fn spec_parent_file(s: SymbolDescriptor) -> &FileModel {
    match s {
        SymbolDescriptor::Service(f, _) => f,
        SymbolDescriptor::Method(f, _) => f,
        SymbolDescriptor::Message(f, _) => f,
        SymbolDescriptor::Enum(f, _) => f,
        SymbolDescriptor::Field(f, _) => f,
        SymbolDescriptor::Extension(f, _) => f,
        SymbolDescriptor::OneOf(f, _, _) => f,
        SymbolDescriptor::EnumValue(f, _) => f,
        SymbolDescriptor::File(f) => f,
    }
}

/// Search one message and its nested messages for a full name.
fn find_in_message<'a>(m: &'a MessageModel, name: &str) -> (r: Option<&'a MessageModel>)
    ensures
        r matches Some(d) ==> d.full_name@ == name@ && message_matches(*m, name@),
        r is None ==> !message_matches(*m, name@),
    decreases *m,
{
    if str_eq(m.full_name.as_str(), name) {
        return Some(m);
    }
    let mut i: usize = 0;
    while i < m.nested_messages.len()
        invariant
            0 <= i <= m.nested_messages@.len(),
            m.full_name@ != name@,
            forall|j: int| 0 <= j < i ==> !message_matches(#[trigger] m.nested_messages@[j], name@),
        decreases m.nested_messages@.len() - i,
    {
        if let Some(d) = find_in_message(&m.nested_messages[i], name) {
            return Some(d);
        }
        i = i + 1;
    }
    None
}

/// Search one message and its nested messages for an enum full name.
fn find_enum_in_message<'a>(m: &'a MessageModel, name: &str) -> (r: Option<&'a EnumModel>)
    ensures
        r matches Some(d) ==> d.full_name@ == name@ && message_has_enum(*m, name@),
        r is None ==> !message_has_enum(*m, name@),
    decreases *m,
{
    let mut i: usize = 0;
    while i < m.nested_enums.len()
        invariant
            0 <= i <= m.nested_enums@.len(),
            forall|j: int| 0 <= j < i ==> (#[trigger] m.nested_enums@[j]).full_name@ != name@,
        decreases m.nested_enums@.len() - i,
    {
        if str_eq(m.nested_enums[i].full_name.as_str(), name) {
            return Some(&m.nested_enums[i]);
        }
        i = i + 1;
    }
    let mut k: usize = 0;
    while k < m.nested_messages.len()
        invariant
            0 <= k <= m.nested_messages@.len(),
            forall|j: int| 0 <= j < m.nested_enums@.len() ==> (#[trigger] m.nested_enums@[j]).full_name@
                != name@,
            forall|j: int| 0 <= j < k ==> !message_has_enum(#[trigger] m.nested_messages@[j], name@),
        decreases m.nested_messages@.len() - k,
    {
        if let Some(d) = find_enum_in_message(&m.nested_messages[k], name) {
            return Some(d);
        }
        k = k + 1;
    }
    None
}

impl DescriptorPool {
    /// A pool with no files.
    pub fn new() -> (r: Self)
        ensures
            r.files@.len() == 0,
    {
        DescriptorPool { files: Vec::new() }
    }

    /// The file with the given path, when the pool holds one.
    pub fn get_file_by_name(&self, name: &str) -> (r: Option<&FileModel>)
        ensures
            r matches Some(f) ==> f.name@ == name@ && has_file(self.files@, name@)
                && file_in_pool(self.files@, *f),
            r is None ==> !has_file(self.files@, name@),
    {
        let mut i: usize = 0;
        while i < self.files.len()
            invariant
                0 <= i <= self.files@.len(),
                forall|j: int| 0 <= j < i ==> (#[trigger] self.files@[j]).name@ != name@,
            decreases self.files@.len() - i,
        {
            if str_eq(self.files[i].name.as_str(), name) {
                proof {
                    assert((self.files@[i as int]).name@ == name@);
                    assert(has_file(self.files@, name@));
                    assert(file_in_pool(self.files@, self.files@[i as int]));
                }
                return Some(&self.files[i]);
            }
            i = i + 1;
        }
        None
    }

    /// The service with the given full name, when the pool holds one.
    pub fn get_service_by_name(&self, name: &str) -> (r: Option<(&FileModel, &ServiceModel)>)
        ensures
            r matches Some(p) ==> p.1.full_name@ == name@ && has_service(self.files@, name@)
                && service_in_pool(self.files@, *p.1),
            r is None ==> !has_service(self.files@, name@),
    {
        let mut i: usize = 0;
        while i < self.files.len()
            invariant
                0 <= i <= self.files@.len(),
                forall|fi: int, j: int|
                    0 <= fi < i && 0 <= j < self.files@[fi].services@.len() ==> (
                    #[trigger] self.files@[fi].services@[j]).full_name@ != name@,
            decreases self.files@.len() - i,
        {
            let f = &self.files[i];
            let mut j: usize = 0;
            while j < f.services.len()
                invariant
                    0 <= j <= f.services@.len(),
                    0 <= i < self.files@.len(),
                    f == self.files@[i as int],
                    forall|k: int| 0 <= k < j ==> (#[trigger] f.services@[k]).full_name@ != name@,
                decreases f.services@.len() - j,
            {
                if str_eq(f.services[j].full_name.as_str(), name) {
                    proof {
                        assert((self.files@[i as int]).services@[j as int].full_name@ == name@);
                        assert(has_service(self.files@, name@));
                        assert(service_in_pool(self.files@, self.files@[i as int].services@[j as int]));
                    }
                    return Some((f, &f.services[j]));
                }
                j = j + 1;
            }
            i = i + 1;
        }
        None
    }

    /// The message with the given full name, nested messages included.
    pub fn get_message_by_name(&self, name: &str) -> (r: Option<(&FileModel, &MessageModel)>)
        ensures
            r matches Some(p) ==> p.1.full_name@ == name@ && has_message(self.files@, name@),
            r is None ==> !has_message(self.files@, name@),
    {
        let mut i: usize = 0;
        while i < self.files.len()
            invariant
                0 <= i <= self.files@.len(),
                forall|fi: int, j: int|
                    0 <= fi < i && 0 <= j < self.files@[fi].messages@.len() ==> !message_matches(
                        #[trigger] self.files@[fi].messages@[j],
                        name@,
                    ),
            decreases self.files@.len() - i,
        {
            let f = &self.files[i];
            let mut j: usize = 0;
            while j < f.messages.len()
                invariant
                    0 <= j <= f.messages@.len(),
                    0 <= i < self.files@.len(),
                    f == self.files@[i as int],
                    forall|k: int|
                        0 <= k < j ==> !message_matches(#[trigger] f.messages@[k], name@),
                decreases f.messages@.len() - j,
            {
                if let Some(d) = find_in_message(&f.messages[j], name) {
                    proof {
                        assert(message_matches(self.files@[i as int].messages@[j as int], name@));
                        assert(has_message(self.files@, name@));
                    }
                    return Some((f, d));
                }
                j = j + 1;
            }
            i = i + 1;
        }
        None
    }

    /// The enum with the given full name, nested enums included.
    pub fn get_enum_by_name(&self, name: &str) -> (r: Option<(&FileModel, &EnumModel)>)
        ensures
            r matches Some(p) ==> p.1.full_name@ == name@ && has_enum(self.files@, name@),
            r is None ==> !has_enum(self.files@, name@),
    {
        let mut i: usize = 0;
        while i < self.files.len()
            invariant
                0 <= i <= self.files@.len(),
                forall|fi: int, j: int|
                    0 <= fi < i && 0 <= j < self.files@[fi].enums@.len() ==> (
                    #[trigger] self.files@[fi].enums@[j]).full_name@ != name@,
                forall|fi: int, j: int|
                    0 <= fi < i && 0 <= j < self.files@[fi].messages@.len() ==> !message_has_enum(
                        #[trigger] self.files@[fi].messages@[j],
                        name@,
                    ),
            decreases self.files@.len() - i,
        {
            let f = &self.files[i];
            let mut j: usize = 0;
            while j < f.enums.len()
                invariant
                    0 <= j <= f.enums@.len(),
                    0 <= i < self.files@.len(),
                    f == self.files@[i as int],
                    forall|k: int| 0 <= k < j ==> (#[trigger] f.enums@[k]).full_name@ != name@,
                decreases f.enums@.len() - j,
            {
                if str_eq(f.enums[j].full_name.as_str(), name) {
                    proof {
                        assert((self.files@[i as int]).enums@[j as int].full_name@ == name@);
                        assert(has_enum(self.files@, name@));
                    }
                    return Some((f, &f.enums[j]));
                }
                j = j + 1;
            }
            let mut k: usize = 0;
            while k < f.messages.len()
                invariant
                    0 <= k <= f.messages@.len(),
                    0 <= i < self.files@.len(),
                    f == self.files@[i as int],
                    forall|j2: int| 0 <= j2 < f.enums@.len() ==> (#[trigger] f.enums@[j2]).full_name@
                        != name@,
                    forall|j2: int|
                        0 <= j2 < k ==> !message_has_enum(#[trigger] f.messages@[j2], name@),
                decreases f.messages@.len() - k,
            {
                if let Some(d) = find_enum_in_message(&f.messages[k], name) {
                    proof {
                        assert(message_has_enum(self.files@[i as int].messages@[k as int], name@));
                        assert(has_enum(self.files@, name@));
                    }
                    return Some((f, d));
                }
                k = k + 1;
            }
            i = i + 1;
        }
        None
    }

    /// The extension with the given full name, when the pool holds one.
    pub fn get_extension_by_name(&self, name: &str) -> (r: Option<(&FileModel, &ExtensionModel)>)
        ensures
            r matches Some(p) ==> p.1.full_name@ == name@ && has_extension(self.files@, name@),
            r is None ==> !has_extension(self.files@, name@),
    {
        let mut i: usize = 0;
        while i < self.files.len()
            invariant
                0 <= i <= self.files@.len(),
                forall|fi: int, j: int|
                    0 <= fi < i && 0 <= j < self.files@[fi].extensions@.len() ==> (
                    #[trigger] self.files@[fi].extensions@[j]).full_name@ != name@,
            decreases self.files@.len() - i,
        {
            let f = &self.files[i];
            let mut j: usize = 0;
            while j < f.extensions.len()
                invariant
                    0 <= j <= f.extensions@.len(),
                    0 <= i < self.files@.len(),
                    f == self.files@[i as int],
                    forall|k: int| 0 <= k < j ==> (#[trigger] f.extensions@[k]).full_name@ != name@,
                decreases f.extensions@.len() - j,
            {
                if str_eq(f.extensions[j].full_name.as_str(), name) {
                    proof {
                        assert((self.files@[i as int]).extensions@[j as int].full_name@ == name@);
                        assert(has_extension(self.files@, name@));
                    }
                    return Some((f, &f.extensions[j]));
                }
                j = j + 1;
            }
            i = i + 1;
        }
        None
    }

    /// The full names of all services in the pool, in pool order.
    pub fn service_names(&self) -> (r: Vec<String>)
        ensures
            r@.len() == spec_service_names(self.files@).len(),
            forall|i: int| 0 <= i < r@.len() ==> r@[i]@ == spec_service_names(self.files@)[i],
    {
        let mut out: Vec<String> = Vec::new();
        let mut i: usize = 0;
        while i < self.files.len()
            invariant
                0 <= i <= self.files@.len(),
                crate::strutil::views_of(out@) == spec_service_names(
                    self.files@.subrange(0, i as int),
                ),
            decreases self.files@.len() - i,
        {
            let f = &self.files[i];
            let mut j: usize = 0;
            while j < f.services.len()
                invariant
                    0 <= j <= f.services@.len(),
                    0 <= i < self.files@.len(),
                    f == self.files@[i as int],
                    crate::strutil::views_of(out@) == spec_service_names(
                        self.files@.subrange(0, i as int),
                    ) + file_service_names(*f).subrange(0, j as int),
                decreases f.services@.len() - j,
            {
                let ghost prev = out@;
                out.push(f.services[j].full_name.clone());
                proof {
                    assert(crate::strutil::views_of(out@) =~= crate::strutil::views_of(
                        prev,
                    ).push(f.services@[j as int].full_name@));
                    assert(file_service_names(self.files@[i as int]).subrange(0, j + 1)
                        =~= file_service_names(self.files@[i as int]).subrange(0, j as int).push(
                        f.services@[j as int].full_name@,
                    ));
                    assert(crate::strutil::views_of(out@) =~= spec_service_names(
                        self.files@.subrange(0, i as int),
                    ) + file_service_names(self.files@[i as int]).subrange(0, j + 1));
                }
                j = j + 1;
            }
            proof {
                lemma_spec_service_names_push(self.files@, i as int);
                assert(file_service_names(self.files@[i as int]).subrange(
                    0,
                    self.files@[i as int].services@.len() as int,
                ) =~= file_service_names(self.files@[i as int]));
            }
            i = i + 1;
        }
        proof {
            assert(self.files@.subrange(0, self.files@.len() as int) =~= self.files@);
            assert(spec_service_names(self.files@).subrange(
                0,
                j_len(spec_service_names(self.files@)),
            ) =~= spec_service_names(self.files@));
        }
        out
    }
}

/// The length of a sequence of names, as an int.
pub open spec fn j_len(s: Seq<Seq<char>>) -> int {
    s.len() as int
}

/// The full names of the services of one file, in order.
pub open spec fn file_service_names(f: FileModel) -> Seq<Seq<char>> {
    f.services@.map_values(|s: ServiceModel| s.full_name@)
}

/// The full names of all services of the files, in order.
pub open spec fn spec_service_names(files: Seq<FileModel>) -> Seq<Seq<char>>
    decreases files.len(),
{
    if files.len() == 0 {
        Seq::empty()
    } else {
        spec_service_names(files.subrange(0, files.len() - 1)) + file_service_names(
            files[files.len() - 1],
        )
    }
}

proof fn lemma_spec_service_names_push(files: Seq<FileModel>, i: int)
    requires
        0 <= i < files.len(),
    ensures
        spec_service_names(files.subrange(0, i + 1)) == spec_service_names(
            files.subrange(0, i),
        ) + file_service_names(files[i]),
{
    let pre = files.subrange(0, i + 1);
    assert(pre.subrange(0, i) =~= files.subrange(0, i));
    assert(pre[i] == files[i]);
}


/// Whether `svc` has a method with this name.
pub open spec fn service_has_method(svc: ServiceModel, child: Seq<char>) -> bool {
    exists|k: int|
        #![trigger svc.methods@[k].name]
        0 <= k < svc.methods@.len() && svc.methods@[k].name@ == child
}

/// Whether the pool holds a service named `parent` with a method named
/// `child`.
pub open spec fn has_method(files: Seq<FileModel>, parent: Seq<char>, child: Seq<char>) -> bool {
    exists|i: int, j: int|
        #![trigger files[i].services@[j].full_name]
        0 <= i < files.len() && 0 <= j < files[i].services@.len()
            && files[i].services@[j].full_name@ == parent && service_has_method(
            files[i].services@[j],
            child,
        )
}

/// Whether `m` or a nested message is named `parent` and has a field
/// named `child`.
pub open spec fn message_has_field_sym(m: MessageModel, parent: Seq<char>, child: Seq<char>) -> bool
    decreases m,
{
    (m.full_name@ == parent && exists|k: int|
        #![trigger m.fields@[k].name]
        0 <= k < m.fields@.len() && m.fields@[k].name@ == child) || exists|i: int|
        0 <= i < m.nested_messages@.len() && message_has_field_sym(
            #[trigger] m.nested_messages@[i],
            parent,
            child,
        )
}

/// Whether `m` or a nested message is named `parent` and has a one-of
/// named `child`.
pub open spec fn message_has_oneof_sym(m: MessageModel, parent: Seq<char>, child: Seq<char>) -> bool
    decreases m,
{
    (m.full_name@ == parent && exists|k: int|
        #![trigger m.oneofs@[k].name]
        0 <= k < m.oneofs@.len() && m.oneofs@[k].name@ == child) || exists|i: int|
        0 <= i < m.nested_messages@.len() && message_has_oneof_sym(
            #[trigger] m.nested_messages@[i],
            parent,
            child,
        )
}

/// Whether the pool holds a message named `parent` with a field named
/// `child`.
pub open spec fn has_field_sym(files: Seq<FileModel>, parent: Seq<char>, child: Seq<char>) -> bool {
    exists|i: int, j: int|
        #![trigger message_has_field_sym(files[i].messages@[j], parent, child)]
        0 <= i < files.len() && 0 <= j < files[i].messages@.len() && message_has_field_sym(
            files[i].messages@[j],
            parent,
            child,
        )
}

/// Whether the pool holds a message named `parent` with a one-of named
/// `child`.
pub open spec fn has_oneof_sym(files: Seq<FileModel>, parent: Seq<char>, child: Seq<char>) -> bool {
    exists|i: int, j: int|
        #![trigger message_has_oneof_sym(files[i].messages@[j], parent, child)]
        0 <= i < files.len() && 0 <= j < files[i].messages@.len() && message_has_oneof_sym(
            files[i].messages@[j],
            parent,
            child,
        )
}

/// Whether `e` has a value with this name.
pub open spec fn enum_has_value(e: EnumModel, child: Seq<char>) -> bool {
    exists|k: int|
        #![trigger e.values@[k].name]
        0 <= k < e.values@.len() && e.values@[k].name@ == child
}

/// Whether `m` or a nested message holds an enum named `parent` with a
/// value named `child`.
pub open spec fn message_has_enum_value(m: MessageModel, parent: Seq<char>, child: Seq<char>) -> bool
    decreases m,
{
    (exists|k: int|
        #![trigger m.nested_enums@[k].full_name]
        0 <= k < m.nested_enums@.len() && m.nested_enums@[k].full_name@ == parent
            && enum_has_value(m.nested_enums@[k], child)) || exists|i: int|
        0 <= i < m.nested_messages@.len() && message_has_enum_value(
            #[trigger] m.nested_messages@[i],
            parent,
            child,
        )
}

/// Whether the pool holds an enum named `parent` with a value named
/// `child`.
pub open spec fn has_enum_value(files: Seq<FileModel>, parent: Seq<char>, child: Seq<char>) -> bool {
    (exists|i: int, j: int|
        #![trigger files[i].enums@[j].full_name]
        0 <= i < files.len() && 0 <= j < files[i].enums@.len() && files[i].enums@[j].full_name@
            == parent && enum_has_value(files[i].enums@[j], child)) || exists|i: int, j: int|
        #![trigger message_has_enum_value(files[i].messages@[j], parent, child)]
        0 <= i < files.len() && 0 <= j < files[i].messages@.len() && message_has_enum_value(
            files[i].messages@[j],
            parent,
            child,
        )
}

/// Search a service for a method by name.
fn find_method_in_service<'a>(svc: &'a ServiceModel, child: &str) -> (r: Option<&'a MethodModel>)
    ensures
        r matches Some(m) ==> m.name@ == child@ && service_has_method(*svc, child@) && (
        service_names_wf(*svc) ==> m.full_name@ == dotted(svc.full_name@, child@)),
        r is None ==> !service_has_method(*svc, child@),
{
    let mut k: usize = 0;
    while k < svc.methods.len()
        invariant
            0 <= k <= svc.methods@.len(),
            forall|j: int| #![trigger svc.methods@[j].name] 0 <= j < k ==> svc.methods@[j].name@
                != child@,
        decreases svc.methods@.len() - k,
    {
        if str_eq(svc.methods[k].name.as_str(), child) {
            proof {
                assert(svc.methods@[k as int].name@ == child@);
                if service_names_wf(*svc) {
                    assert(svc.methods@[k as int].full_name@ == dotted(
                        svc.full_name@,
                        svc.methods@[k as int].name@,
                    ));
                }
            }
            return Some(&svc.methods[k]);
        }
        k = k + 1;
    }
    None
}

/// Search the pool for a method of a service named `parent`.
fn find_method_in_pool<'a>(pool: &'a DescriptorPool, parent: &str, child: &str) -> (r: Option<
    (&'a FileModel, &'a MethodModel),
>)
    ensures
        r matches Some(p) ==> p.1.name@ == child@ && has_method(pool.files@, parent@, child@)
            && (pool_names_wf(pool.files@) ==> p.1.full_name@ == dotted(parent@, child@)),
        r is None ==> !has_method(pool.files@, parent@, child@),
{
    let mut i: usize = 0;
    while i < pool.files.len()
        invariant
            0 <= i <= pool.files@.len(),
            forall|fi: int, j: int|
                #![trigger pool.files@[fi].services@[j].full_name]
                0 <= fi < i && 0 <= j < pool.files@[fi].services@.len() ==> !(
                pool.files@[fi].services@[j].full_name@ == parent@ && service_has_method(
                    pool.files@[fi].services@[j],
                    child@,
                )),
        decreases pool.files@.len() - i,
    {
        let f = &pool.files[i];
        let mut j: usize = 0;
        while j < f.services.len()
            invariant
                0 <= j <= f.services@.len(),
                0 <= i < pool.files@.len(),
                f == pool.files@[i as int],
                forall|k: int|
                    #![trigger f.services@[k].full_name]
                    0 <= k < j ==> !(f.services@[k].full_name@ == parent@ && service_has_method(
                        f.services@[k],
                        child@,
                    )),
            decreases f.services@.len() - j,
        {
            if str_eq(f.services[j].full_name.as_str(), parent) {
                if let Some(m) = find_method_in_service(&f.services[j], child) {
                    proof {
                        assert(pool.files@[i as int].services@[j as int].full_name@ == parent@
                            && service_has_method(
                            pool.files@[i as int].services@[j as int],
                            child@,
                        ));
                        if pool_names_wf(pool.files@) {
                            assert(service_names_wf(pool.files@[i as int].services@[j as int]));
                        }
                    }
                    return Some((f, m));
                }
            }
            j = j + 1;
        }
        i = i + 1;
    }
    None
}

/// Search a message tree for a field of a message named `parent`.
fn find_field_sym<'a>(m: &'a MessageModel, parent: &str, child: &str) -> (r: Option<
    &'a FieldModel,
>)
    ensures
        r matches Some(fl) ==> fl.name@ == child@ && message_has_field_sym(*m, parent@, child@)
            && (message_names_wf(*m) ==> fl.full_name@ == dotted(parent@, child@)),
        r is None ==> !message_has_field_sym(*m, parent@, child@),
    decreases *m,
{
    if str_eq(m.full_name.as_str(), parent) {
        let mut k: usize = 0;
        while k < m.fields.len()
            invariant
                0 <= k <= m.fields@.len(),
                m.full_name@ == parent@,
                forall|j: int| #![trigger m.fields@[j].name] 0 <= j < k ==> m.fields@[j].name@
                    != child@,
            decreases m.fields@.len() - k,
        {
            if str_eq(m.fields[k].name.as_str(), child) {
                proof {
                    assert(m.fields@[k as int].name@ == child@);
                    assert(message_has_field_sym(*m, parent@, child@));
                    if message_names_wf(*m) {
                        assert(m.fields@[k as int].full_name@ == dotted(
                            m.full_name@,
                            m.fields@[k as int].name@,
                        ));
                    }
                }
                return Some(&m.fields[k]);
            }
            k = k + 1;
        }
    }
    let mut i: usize = 0;
    while i < m.nested_messages.len()
        invariant
            0 <= i <= m.nested_messages@.len(),
            m.full_name@ == parent@ ==> forall|j: int|
                #![trigger m.fields@[j].name]
                0 <= j < m.fields@.len() ==> m.fields@[j].name@ != child@,
            forall|j: int|
                0 <= j < i ==> !message_has_field_sym(
                    #[trigger] m.nested_messages@[j],
                    parent@,
                    child@,
                ),
        decreases m.nested_messages@.len() - i,
    {
        if let Some(fl) = find_field_sym(&m.nested_messages[i], parent, child) {
            proof {
                assert(message_has_field_sym(m.nested_messages@[i as int], parent@, child@));
                assert(message_has_field_sym(*m, parent@, child@));
                if message_names_wf(*m) {
                    assert(message_names_wf(m.nested_messages@[i as int]));
                }
            }
            return Some(fl);
        }
        i = i + 1;
    }
    None
}

/// Search a message tree for a one-of of a message named `parent`.
fn find_oneof_sym<'a>(m: &'a MessageModel, parent: &str, child: &str) -> (r: Option<
    (&'a MessageModel, &'a OneofModel),
>)
    ensures
        r matches Some(p) ==> p.1.name@ == child@ && message_has_oneof_sym(*m, parent@, child@)
            && (message_names_wf(*m) ==> p.1.full_name@ == dotted(parent@, child@)),
        r is None ==> !message_has_oneof_sym(*m, parent@, child@),
    decreases *m,
{
    if str_eq(m.full_name.as_str(), parent) {
        let mut k: usize = 0;
        while k < m.oneofs.len()
            invariant
                0 <= k <= m.oneofs@.len(),
                m.full_name@ == parent@,
                forall|j: int| #![trigger m.oneofs@[j].name] 0 <= j < k ==> m.oneofs@[j].name@
                    != child@,
            decreases m.oneofs@.len() - k,
        {
            if str_eq(m.oneofs[k].name.as_str(), child) {
                proof {
                    assert(m.oneofs@[k as int].name@ == child@);
                    assert(message_has_oneof_sym(*m, parent@, child@));
                    if message_names_wf(*m) {
                        assert(m.oneofs@[k as int].full_name@ == dotted(
                            m.full_name@,
                            m.oneofs@[k as int].name@,
                        ));
                    }
                }
                return Some((m, &m.oneofs[k]));
            }
            k = k + 1;
        }
    }
    let mut i: usize = 0;
    while i < m.nested_messages.len()
        invariant
            0 <= i <= m.nested_messages@.len(),
            m.full_name@ == parent@ ==> forall|j: int|
                #![trigger m.oneofs@[j].name]
                0 <= j < m.oneofs@.len() ==> m.oneofs@[j].name@ != child@,
            forall|j: int|
                0 <= j < i ==> !message_has_oneof_sym(
                    #[trigger] m.nested_messages@[j],
                    parent@,
                    child@,
                ),
        decreases m.nested_messages@.len() - i,
    {
        if let Some(p) = find_oneof_sym(&m.nested_messages[i], parent, child) {
            proof {
                assert(message_has_oneof_sym(m.nested_messages@[i as int], parent@, child@));
                assert(message_has_oneof_sym(*m, parent@, child@));
                if message_names_wf(*m) {
                    assert(message_names_wf(m.nested_messages@[i as int]));
                }
            }
            return Some(p);
        }
        i = i + 1;
    }
    None
}

/// Search an enum for a value by name.
fn find_value_in_enum<'a>(e: &'a EnumModel, child: &str) -> (r: Option<&'a EnumValueModel>)
    ensures
        r matches Some(v) ==> v.name@ == child@ && enum_has_value(*e, child@) && (enum_names_wf(
            *e,
        ) ==> v.full_name@ == dotted(e.full_name@, child@)),
        r is None ==> !enum_has_value(*e, child@),
{
    let mut k: usize = 0;
    while k < e.values.len()
        invariant
            0 <= k <= e.values@.len(),
            forall|j: int| #![trigger e.values@[j].name] 0 <= j < k ==> e.values@[j].name@
                != child@,
        decreases e.values@.len() - k,
    {
        if str_eq(e.values[k].name.as_str(), child) {
            proof {
                assert(e.values@[k as int].name@ == child@);
                if enum_names_wf(*e) {
                    assert(e.values@[k as int].full_name@ == dotted(
                        e.full_name@,
                        e.values@[k as int].name@,
                    ));
                }
            }
            return Some(&e.values[k]);
        }
        k = k + 1;
    }
    None
}

/// Search a message tree for a value of an enum named `parent`.
fn find_enum_value_sym<'a>(m: &'a MessageModel, parent: &str, child: &str) -> (r: Option<
    &'a EnumValueModel,
>)
    ensures
        r matches Some(v) ==> v.name@ == child@ && message_has_enum_value(*m, parent@, child@)
            && (message_names_wf(*m) ==> v.full_name@ == dotted(parent@, child@)),
        r is None ==> !message_has_enum_value(*m, parent@, child@),
    decreases *m,
{
    let mut k: usize = 0;
    while k < m.nested_enums.len()
        invariant
            0 <= k <= m.nested_enums@.len(),
            forall|j: int|
                #![trigger m.nested_enums@[j].full_name]
                0 <= j < k ==> !(m.nested_enums@[j].full_name@ == parent@ && enum_has_value(
                    m.nested_enums@[j],
                    child@,
                )),
        decreases m.nested_enums@.len() - k,
    {
        if str_eq(m.nested_enums[k].full_name.as_str(), parent) {
            if let Some(v) = find_value_in_enum(&m.nested_enums[k], child) {
                proof {
                    assert(m.nested_enums@[k as int].full_name@ == parent@ && enum_has_value(
                        m.nested_enums@[k as int],
                        child@,
                    ));
                    if message_names_wf(*m) {
                        assert(enum_names_wf(m.nested_enums@[k as int]));
                    }
                }
                return Some(v);
            }
        }
        k = k + 1;
    }
    let mut i: usize = 0;
    while i < m.nested_messages.len()
        invariant
            0 <= i <= m.nested_messages@.len(),
            forall|j: int|
                #![trigger m.nested_enums@[j].full_name]
                0 <= j < m.nested_enums@.len() ==> !(m.nested_enums@[j].full_name@ == parent@
                    && enum_has_value(m.nested_enums@[j], child@)),
            forall|j: int|
                0 <= j < i ==> !message_has_enum_value(
                    #[trigger] m.nested_messages@[j],
                    parent@,
                    child@,
                ),
        decreases m.nested_messages@.len() - i,
    {
        if let Some(v) = find_enum_value_sym(&m.nested_messages[i], parent, child) {
            proof {
                if message_names_wf(*m) {
                    assert(message_names_wf(m.nested_messages@[i as int]));
                }
            }
            return Some(v);
        }
        i = i + 1;
    }
    None
}

/// Search the pool for a field of a message named `parent`.
fn find_field_in_pool<'a>(pool: &'a DescriptorPool, parent: &str, child: &str) -> (r: Option<
    (&'a FileModel, &'a FieldModel),
>)
    ensures
        r matches Some(p) ==> p.1.name@ == child@ && has_field_sym(pool.files@, parent@, child@)
            && (pool_names_wf(pool.files@) ==> p.1.full_name@ == dotted(parent@, child@)),
        r is None ==> !has_field_sym(pool.files@, parent@, child@),
{
    let mut i: usize = 0;
    while i < pool.files.len()
        invariant
            0 <= i <= pool.files@.len(),
            forall|fi: int, j: int|
                #![trigger message_has_field_sym(pool.files@[fi].messages@[j], parent@, child@)]
                0 <= fi < i && 0 <= j < pool.files@[fi].messages@.len()
                    ==> !message_has_field_sym(pool.files@[fi].messages@[j], parent@, child@),
        decreases pool.files@.len() - i,
    {
        let f = &pool.files[i];
        let mut j: usize = 0;
        while j < f.messages.len()
            invariant
                0 <= j <= f.messages@.len(),
                0 <= i < pool.files@.len(),
                f == pool.files@[i as int],
                forall|k: int|
                    0 <= k < j ==> !message_has_field_sym(
                        #[trigger] f.messages@[k],
                        parent@,
                        child@,
                    ),
            decreases f.messages@.len() - j,
        {
            if let Some(fl) = find_field_sym(&f.messages[j], parent, child) {
                proof {
                    assert(message_has_field_sym(
                        pool.files@[i as int].messages@[j as int],
                        parent@,
                        child@,
                    ));
                    if pool_names_wf(pool.files@) {
                        assert(message_names_wf(pool.files@[i as int].messages@[j as int]));
                    }
                }
                return Some((f, fl));
            }
            j = j + 1;
        }
        i = i + 1;
    }
    None
}

/// Search the pool for a one-of of a message named `parent`.
fn find_oneof_in_pool<'a>(pool: &'a DescriptorPool, parent: &str, child: &str) -> (r: Option<
    (&'a FileModel, &'a MessageModel, &'a OneofModel),
>)
    ensures
        r matches Some(p) ==> p.2.name@ == child@ && has_oneof_sym(pool.files@, parent@, child@)
            && (pool_names_wf(pool.files@) ==> p.2.full_name@ == dotted(parent@, child@)),
        r is None ==> !has_oneof_sym(pool.files@, parent@, child@),
{
    let mut i: usize = 0;
    while i < pool.files.len()
        invariant
            0 <= i <= pool.files@.len(),
            forall|fi: int, j: int|
                #![trigger message_has_oneof_sym(pool.files@[fi].messages@[j], parent@, child@)]
                0 <= fi < i && 0 <= j < pool.files@[fi].messages@.len()
                    ==> !message_has_oneof_sym(pool.files@[fi].messages@[j], parent@, child@),
        decreases pool.files@.len() - i,
    {
        let f = &pool.files[i];
        let mut j: usize = 0;
        while j < f.messages.len()
            invariant
                0 <= j <= f.messages@.len(),
                0 <= i < pool.files@.len(),
                f == pool.files@[i as int],
                forall|k: int|
                    0 <= k < j ==> !message_has_oneof_sym(
                        #[trigger] f.messages@[k],
                        parent@,
                        child@,
                    ),
            decreases f.messages@.len() - j,
        {
            if let Some(p) = find_oneof_sym(&f.messages[j], parent, child) {
                proof {
                    assert(message_has_oneof_sym(
                        pool.files@[i as int].messages@[j as int],
                        parent@,
                        child@,
                    ));
                    if pool_names_wf(pool.files@) {
                        assert(message_names_wf(pool.files@[i as int].messages@[j as int]));
                    }
                }
                return Some((f, p.0, p.1));
            }
            j = j + 1;
        }
        i = i + 1;
    }
    None
}

/// Search the pool for a value of an enum named `parent`.
fn find_enum_value_in_pool<'a>(pool: &'a DescriptorPool, parent: &str, child: &str) -> (r: Option<
    (&'a FileModel, &'a EnumValueModel),
>)
    ensures
        r matches Some(p) ==> p.1.name@ == child@ && has_enum_value(pool.files@, parent@, child@)
            && (pool_names_wf(pool.files@) ==> p.1.full_name@ == dotted(parent@, child@)),
        r is None ==> !has_enum_value(pool.files@, parent@, child@),
{
    let mut i: usize = 0;
    while i < pool.files.len()
        invariant
            0 <= i <= pool.files@.len(),
            forall|fi: int, j: int|
                #![trigger pool.files@[fi].enums@[j].full_name]
                0 <= fi < i && 0 <= j < pool.files@[fi].enums@.len() ==> !(
                pool.files@[fi].enums@[j].full_name@ == parent@ && enum_has_value(
                    pool.files@[fi].enums@[j],
                    child@,
                )),
            forall|fi: int, j: int|
                #![trigger message_has_enum_value(pool.files@[fi].messages@[j], parent@, child@)]
                0 <= fi < i && 0 <= j < pool.files@[fi].messages@.len()
                    ==> !message_has_enum_value(pool.files@[fi].messages@[j], parent@, child@),
        decreases pool.files@.len() - i,
    {
        let f = &pool.files[i];
        let mut j: usize = 0;
        while j < f.enums.len()
            invariant
                0 <= j <= f.enums@.len(),
                0 <= i < pool.files@.len(),
                f == pool.files@[i as int],
                forall|k: int|
                    #![trigger f.enums@[k].full_name]
                    0 <= k < j ==> !(f.enums@[k].full_name@ == parent@ && enum_has_value(
                        f.enums@[k],
                        child@,
                    )),
            decreases f.enums@.len() - j,
        {
            if str_eq(f.enums[j].full_name.as_str(), parent) {
                if let Some(v) = find_value_in_enum(&f.enums[j], child) {
                    proof {
                        assert(pool.files@[i as int].enums@[j as int].full_name@ == parent@
                            && enum_has_value(pool.files@[i as int].enums@[j as int], child@));
                        if pool_names_wf(pool.files@) {
                            assert(enum_names_wf(pool.files@[i as int].enums@[j as int]));
                        }
                    }
                    return Some((f, v));
                }
            }
            j = j + 1;
        }
        let mut k: usize = 0;
        while k < f.messages.len()
            invariant
                0 <= k <= f.messages@.len(),
                0 <= i < pool.files@.len(),
                f == pool.files@[i as int],
                forall|j2: int|
                    #![trigger f.enums@[j2].full_name]
                    0 <= j2 < f.enums@.len() ==> !(f.enums@[j2].full_name@ == parent@
                        && enum_has_value(f.enums@[j2], child@)),
                forall|j2: int|
                    0 <= j2 < k ==> !message_has_enum_value(
                        #[trigger] f.messages@[j2],
                        parent@,
                        child@,
                    ),
            decreases f.messages@.len() - k,
        {
            if let Some(v) = find_enum_value_sym(&f.messages[k], parent, child) {
                proof {
                    assert(message_has_enum_value(
                        pool.files@[i as int].messages@[k as int],
                        parent@,
                        child@,
                    ));
                    if pool_names_wf(pool.files@) {
                        assert(message_names_wf(pool.files@[i as int].messages@[k as int]));
                    }
                }
                return Some((f, v));
            }
            k = k + 1;
        }
        i = i + 1;
    }
    None
}

/// A parent name, a dot, and a child name.
pub open spec fn dotted(parent: Seq<char>, child: Seq<char>) -> Seq<char> {
    parent + seq!['.'] + child
}

/// Whether a service's stored method full names follow from its own name.
pub open spec fn service_names_wf(s: ServiceModel) -> bool {
    forall|k: int|
        0 <= k < s.methods@.len() ==> (#[trigger] s.methods@[k]).full_name@ == dotted(
            s.full_name@,
            s.methods@[k].name@,
        )
}

/// Whether an enum's stored value full names follow from its own name.
pub open spec fn enum_names_wf(e: EnumModel) -> bool {
    forall|k: int|
        0 <= k < e.values@.len() ==> (#[trigger] e.values@[k]).full_name@ == dotted(
            e.full_name@,
            e.values@[k].name@,
        )
}

/// Whether a message tree's stored full names (fields, one-ofs, nested
/// enums and their values, nested messages) follow from the owners'
/// names.
pub open spec fn message_names_wf(m: MessageModel) -> bool
    decreases m,
{
    &&& (forall|k: int|
        0 <= k < m.fields@.len() ==> (#[trigger] m.fields@[k]).full_name@ == dotted(
            m.full_name@,
            m.fields@[k].name@,
        ))
    &&& (forall|k: int|
        0 <= k < m.oneofs@.len() ==> (#[trigger] m.oneofs@[k]).full_name@ == dotted(
            m.full_name@,
            m.oneofs@[k].name@,
        ))
    &&& (forall|k: int| 0 <= k < m.nested_enums@.len() ==> enum_names_wf(
        #[trigger] m.nested_enums@[k],
    ))
    &&& (forall|k: int| 0 <= k < m.nested_messages@.len() ==> message_names_wf(
        #[trigger] m.nested_messages@[k],
    ))
}

/// Whether every stored sub-symbol full name in the pool follows from its
/// owner's name, as protobuf descriptors guarantee.
pub open spec fn pool_names_wf(files: Seq<FileModel>) -> bool {
    &&& (forall|i: int, j: int|
        0 <= i < files.len() && 0 <= j < files[i].services@.len() ==> service_names_wf(
            #[trigger] files[i].services@[j],
        ))
    &&& (forall|i: int, j: int|
        0 <= i < files.len() && 0 <= j < files[i].messages@.len() ==> message_names_wf(
            #[trigger] files[i].messages@[j],
        ))
    &&& (forall|i: int, j: int|
        0 <= i < files.len() && 0 <= j < files[i].enums@.len() ==> enum_names_wf(
            #[trigger] files[i].enums@[j],
        ))
}

/// A name splits back together around any of its characters.
proof fn lemma_split_rejoin(s: Seq<char>, p: int)
    requires
        0 <= p < s.len(),
    ensures
        s == s.subrange(0, p) + seq![s[p]] + s.subrange(p + 1, s.len() as int),
{
    assert(s =~= s.subrange(0, p) + seq![s[p]] + s.subrange(p + 1, s.len() as int));
}

/// The parent part of a dotted name: everything before the last `.`.
pub open spec fn split_parent(n: Seq<char>) -> Seq<char> {
    n.subrange(0, crate::strutil::rfind_char_pos(n, '.'))
}

/// The child part of a dotted name: everything after the last `.`.
pub open spec fn split_child(n: Seq<char>) -> Seq<char> {
    n.subrange(crate::strutil::rfind_char_pos(n, '.') + 1, n.len() as int)
}

/// Whether the name holds a `.` to split at.
pub open spec fn has_dot(n: Seq<char>) -> bool {
    crate::strutil::rfind_char_pos(n, '.') >= 0
}

/// Whether the name resolves to a top-level symbol: a service, message,
/// enum or extension.
pub open spec fn top_level_symbol(files: Seq<FileModel>, n: Seq<char>) -> bool {
    has_service(files, n) || has_message(files, n) || has_enum(files, n) || has_extension(
        files,
        n,
    )
}

/// Whether the name resolves to a sub-symbol: a method, field, one-of or
/// enum value of its parent.
pub open spec fn sub_symbol(files: Seq<FileModel>, n: Seq<char>) -> bool {
    has_dot(n) && (has_method(files, split_parent(n), split_child(n)) || has_field_sym(
        files,
        split_parent(n),
        split_child(n),
    ) || has_oneof_sym(files, split_parent(n), split_child(n)) || has_enum_value(
        files,
        split_parent(n),
        split_child(n),
    ))
}

/// Whether the name resolves to any symbol in the pool.
pub open spec fn symbol_in_pool(files: Seq<FileModel>, n: Seq<char>) -> bool {
    top_level_symbol(files, n) || sub_symbol(files, n) || has_file(files, n)
}

/// Find any symbol by fully-qualified name: first the top-level kinds
/// (service, message, enum, extension, in that order), then sub-symbols by
/// splitting at the last dot (method, field, one-of, enum value), then a
/// file by path; `NotFound` otherwise.
#[verifier::rlimit(100)]
pub fn find_symbol_in_pool<'a>(pool: &'a DescriptorPool, name: &str) -> (r: Result<
    SymbolDescriptor<'a>,
    GrpcurlError,
>)
    ensures
        r is Ok <==> symbol_in_pool(pool.files@, name@),
        r matches Err(e) ==> e matches GrpcurlError::NotFound(m) && m@ == name@,
        r matches Ok(sym) ==> {
            let files = pool.files@;
            let n = name@;
            let parent = split_parent(n);
            let child = split_child(n);
            &&& (sym is Service <==> has_service(files, n))
            &&& (sym matches SymbolDescriptor::Service(_, d) ==> d.full_name@ == n
                && service_in_pool(files, *d))
            &&& (sym is Message <==> !has_service(files, n) && has_message(files, n))
            &&& (sym matches SymbolDescriptor::Message(_, d) ==> d.full_name@ == n)
            &&& (sym is Enum <==> !has_service(files, n) && !has_message(files, n) && has_enum(
                files,
                n,
            ))
            &&& (sym matches SymbolDescriptor::Enum(_, d) ==> d.full_name@ == n)
            &&& (sym is Extension <==> !has_service(files, n) && !has_message(files, n)
                && !has_enum(files, n) && has_extension(files, n))
            &&& (sym matches SymbolDescriptor::Extension(_, d) ==> d.full_name@ == n)
            &&& (sym is Method <==> !top_level_symbol(files, n) && has_dot(n) && has_method(
                files,
                parent,
                child,
            ))
            &&& (sym matches SymbolDescriptor::Method(_, d) ==> d.name@ == child)
            &&& (sym is Field <==> !top_level_symbol(files, n) && has_dot(n) && !has_method(
                files,
                parent,
                child,
            ) && has_field_sym(files, parent, child))
            &&& (sym matches SymbolDescriptor::Field(_, d) ==> d.name@ == child)
            &&& (sym is OneOf <==> !top_level_symbol(files, n) && has_dot(n) && !has_method(
                files,
                parent,
                child,
            ) && !has_field_sym(files, parent, child) && has_oneof_sym(files, parent, child))
            &&& (sym matches SymbolDescriptor::OneOf(_, _, d) ==> d.name@ == child)
            &&& (sym is EnumValue <==> !top_level_symbol(files, n) && has_dot(n) && !has_method(
                files,
                parent,
                child,
            ) && !has_field_sym(files, parent, child) && !has_oneof_sym(files, parent, child)
                && has_enum_value(files, parent, child))
            &&& (sym matches SymbolDescriptor::EnumValue(_, d) ==> d.name@ == child)
            &&& (sym is File <==> !top_level_symbol(files, n) && !sub_symbol(files, n)
                && has_file(files, n))
            &&& (sym matches SymbolDescriptor::File(f) ==> f.name@ == n)
            &&& (pool_names_wf(files) ==> spec_full_name(sym) == n)
        },
{
    if let Some((f, d)) = pool.get_service_by_name(name) {
        return Ok(SymbolDescriptor::Service(f, d));
    }

    if let Some((f, d)) = pool.get_message_by_name(name) {
        return Ok(SymbolDescriptor::Message(f, d));
    }
    if let Some((f, d)) = pool.get_enum_by_name(name) {
        return Ok(SymbolDescriptor::Enum(f, d));
    }
    if let Some((f, d)) = pool.get_extension_by_name(name) {
        return Ok(SymbolDescriptor::Extension(f, d));
    }
    let n = name.unicode_len();
    if let Some(p) = crate::strutil::rfind_char(name, '.') {
        let parent = name.substring_char(0, p);
        let child = name.substring_char(p + 1, n);
        proof {
            crate::strutil::lemma_rfind_char_pos(name@, '.');
            lemma_split_rejoin(name@, p as int);
            assert(dotted(parent@, child@) == name@);
        }
        if let Some((f, m)) = find_method_in_pool(pool, parent, child) {
            return Ok(SymbolDescriptor::Method(f, m));
        }
        if let Some((f, fl)) = find_field_in_pool(pool, parent, child) {
            return Ok(SymbolDescriptor::Field(f, fl));
        }
        if let Some((f, mm, oo)) = find_oneof_in_pool(pool, parent, child) {
            return Ok(SymbolDescriptor::OneOf(f, mm, oo));
        }
        if let Some((f, v)) = find_enum_value_in_pool(pool, parent, child) {
            return Ok(SymbolDescriptor::EnumValue(f, v));
        }
    }
    if let Some(f) = pool.get_file_by_name(name) {
        return Ok(SymbolDescriptor::File(f));
    }
    Err(GrpcurlError::NotFound(name.to_owned()))
}


/// Whether this service value stands in the pool.
pub open spec fn service_in_pool(files: Seq<FileModel>, svc: ServiceModel) -> bool {
    exists|i: int, j: int|
        #![auto]
        0 <= i < files.len() && 0 <= j < files[i].services@.len() && files[i].services@[j] == svc
}

/// The extensions of one file whose extendee is `tn`, in order.
pub open spec fn file_exts_for(exts: Seq<ExtensionModel>, tn: Seq<char>) -> Seq<ExtensionModel>
    decreases exts.len(),
{
    if exts.len() == 0 {
        Seq::empty()
    } else {
        (if exts[0].extendee@ == tn {
            seq![exts[0]]
        } else {
            Seq::empty()
        }) + file_exts_for(exts.subrange(1, exts.len() as int), tn)
    }
}

proof fn lemma_file_exts_for_push(exts: Seq<ExtensionModel>, x: ExtensionModel, tn: Seq<char>)
    ensures
        file_exts_for(exts.push(x), tn) == file_exts_for(exts, tn) + (if x.extendee@ == tn {
            seq![x]
        } else {
            Seq::<ExtensionModel>::empty()
        }),
    decreases exts.len(),
{
    if exts.len() == 0 {
        assert(exts.push(x) =~= seq![x]);
        assert(seq![x].subrange(1, 1) =~= Seq::<ExtensionModel>::empty());
        assert(file_exts_for(Seq::<ExtensionModel>::empty(), tn)
            == Seq::<ExtensionModel>::empty());
        assert(file_exts_for(exts.push(x), tn) =~= file_exts_for(exts, tn) + (if x.extendee@
            == tn {
            seq![x]
        } else {
            Seq::<ExtensionModel>::empty()
        }));
    } else {
        let t = exts.subrange(1, exts.len() as int);
        lemma_file_exts_for_push(t, x, tn);
        assert(exts.push(x)[0] == exts[0]);
        assert(exts.push(x).subrange(1, exts.len() as int + 1) =~= t.push(x));
        assert(file_exts_for(exts.push(x), tn) =~= file_exts_for(exts, tn) + (if x.extendee@
            == tn {
            seq![x]
        } else {
            Seq::<ExtensionModel>::empty()
        }));
    }
}

/// All extensions in the pool whose extendee is `tn`, in pool order.
pub open spec fn exts_for(files: Seq<FileModel>, tn: Seq<char>) -> Seq<ExtensionModel>
    decreases files.len(),
{
    if files.len() == 0 {
        Seq::empty()
    } else {
        exts_for(files.subrange(0, files.len() - 1), tn) + file_exts_for(
            files[files.len() - 1].extensions@,
            tn,
        )
    }
}

proof fn lemma_exts_for_step(files: Seq<FileModel>, i: int, tn: Seq<char>)
    requires
        0 <= i < files.len(),
    ensures
        exts_for(files.subrange(0, i + 1), tn) == exts_for(files.subrange(0, i), tn)
            + file_exts_for(files[i].extensions@, tn),
{
    let pre = files.subrange(0, i + 1);
    assert(pre.subrange(0, i) =~= files.subrange(0, i));
    assert(pre[i] == files[i]);
}

impl DescriptorPool {
    /// All known extensions whose containing (extended) message is
    /// `ty_name`, in pool order.
    pub fn all_extensions_for_type(&self, ty_name: &str) -> (r: Vec<&ExtensionModel>)
        ensures
            r@.len() == exts_for(self.files@, ty_name@).len(),
            forall|i: int| 0 <= i < r@.len() ==> *r@[i] == exts_for(self.files@, ty_name@)[i],
    {
        let ghost tn = ty_name@;
        let mut out: Vec<&ExtensionModel> = Vec::new();
        let ghost target = exts_for(self.files@, tn);
        let mut i: usize = 0;
        proof {
            assert(exts_for(self.files@.subrange(0, 0), tn) =~= Seq::<ExtensionModel>::empty());
        }
        while i < self.files.len()
            invariant
                0 <= i <= self.files@.len(),
                tn == ty_name@,
                out@.len() == exts_for(self.files@.subrange(0, i as int), tn).len(),
                forall|k: int|
                    0 <= k < out@.len() ==> *(#[trigger] out@[k]) == exts_for(
                        self.files@.subrange(0, i as int),
                        tn,
                    )[k],
            decreases self.files@.len() - i,
        {
            let f = &self.files[i];
            let mut j: usize = 0;
            proof {
                assert(file_exts_for(f.extensions@.subrange(0, 0), tn) =~= Seq::<
                    ExtensionModel,
                >::empty());
            }
            while j < f.extensions.len()
                invariant
                    0 <= j <= f.extensions@.len(),
                    0 <= i < self.files@.len(),
                    tn == ty_name@,
                    f == self.files@[i as int],
                    out@.len() == exts_for(self.files@.subrange(0, i as int), tn).len()
                        + file_exts_for(f.extensions@.subrange(0, j as int), tn).len(),
                    forall|k: int|
                        0 <= k < out@.len() ==> *(#[trigger] out@[k]) == (exts_for(
                            self.files@.subrange(0, i as int),
                            tn,
                        ) + file_exts_for(f.extensions@.subrange(0, j as int), tn))[k],
                decreases f.extensions@.len() - j,
            {
                proof {
                    lemma_file_exts_for_push(
                        f.extensions@.subrange(0, j as int),
                        f.extensions@[j as int],
                        tn,
                    );
                    assert(f.extensions@.subrange(0, j + 1) =~= f.extensions@.subrange(
                        0,
                        j as int,
                    ).push(f.extensions@[j as int]));
                }
                if str_eq(f.extensions[j].extendee.as_str(), ty_name) {
                    out.push(&f.extensions[j]);
                }
                j = j + 1;
            }
            proof {
                lemma_exts_for_step(self.files@, i as int, tn);
                assert(f.extensions@.subrange(0, f.extensions@.len() as int) =~= f.extensions@);
            }
            i = i + 1;
        }
        proof {
            assert(self.files@.subrange(0, self.files@.len() as int) =~= self.files@);
        }
        out
    }
}

/// The full names of a service's methods, in declaration order.
pub open spec fn method_full_names(svc: ServiceModel) -> Seq<Seq<char>> {
    svc.methods@.map_values(|m: MethodModel| m.full_name@)
}

/// List all services of a pool, sorted lexicographically.
pub fn list_services(pool: &DescriptorPool) -> (r: Vec<String>)
    ensures
        crate::strutil::views_of(r@) == crate::strutil::sort_lines_spec(
            spec_service_names(pool.files@),
        ),
{
    let names = pool.service_names();
    proof {
        assert(crate::strutil::views_of(names@) =~= spec_service_names(pool.files@));
    }
    crate::strutil::sort_strings(&names)
}

/// List the full method names of a service, sorted lexicographically.
/// The symbol must resolve to a service; any other kind is an error.
pub fn list_methods(pool: &DescriptorPool, service: &str) -> (r: Result<Vec<String>, GrpcurlError>)
    ensures
        r is Ok <==> has_service(pool.files@, service@),
        r matches Ok(v) ==> exists|svc: ServiceModel|
            #![auto]
            service_in_pool(pool.files@, svc) && svc.full_name@ == service@
                && crate::strutil::views_of(v@) == crate::strutil::sort_lines_spec(
                method_full_names(svc),
            ),
        r matches Err(e) ==> !has_service(pool.files@, service@) && (if symbol_in_pool(
            pool.files@,
            service@,
        ) {
            e matches GrpcurlError::Other(m) && m@ == "Service not found: "@ + service@
        } else {
            e matches GrpcurlError::NotFound(m) && m@ == service@
        }),
{
    match find_symbol_in_pool(pool, service) {
        Ok(sym) => {
            match sym {
                SymbolDescriptor::Service(_, svc) => {
                    let mut names: Vec<String> = Vec::new();
                    let mut k: usize = 0;
                    while k < svc.methods.len()
                        invariant
                            0 <= k <= svc.methods@.len(),
                            crate::strutil::views_of(names@) == method_full_names(
                                *svc,
                            ).subrange(0, k as int),
                        decreases svc.methods@.len() - k,
                    {
                        let ghost prev = names@;
                        names.push(svc.methods[k].full_name.clone());
                        proof {
                            assert(crate::strutil::views_of(names@) =~= crate::strutil::views_of(
                                prev,
                            ).push(svc.methods@[k as int].full_name@));
                            assert(method_full_names(*svc).subrange(0, k + 1)
                                =~= method_full_names(*svc).subrange(0, k as int).push(
                                svc.methods@[k as int].full_name@,
                            ));
                        }
                        k = k + 1;
                    }
                    proof {
                        assert(method_full_names(*svc).subrange(
                            0,
                            svc.methods@.len() as int,
                        ) =~= method_full_names(*svc));
                    }
                    Ok(crate::strutil::sort_strings(&names))
                },
                _ => Err(
                    GrpcurlError::Other(
                        String::from_str("Service not found: ").concat(service),
                    ),
                ),
            }
        },
        Err(e) => Err(e),
    }
}

} // verus!
