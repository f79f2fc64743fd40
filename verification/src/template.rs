use vstd::prelude::*;
use crate::descmodel::DescriptorPool;
use crate::descmodel::FieldKind;
use crate::descmodel::FieldModel;
use crate::descmodel::MessageModel;
use crate::strutil::str_eq;

verus! {

/// One value in a message template: a hint string, a scalar left at its
/// default, a nested message template, a one-element list, or a
/// one-entry map.
pub enum TemplateValue {
    StrVal(String),
    ScalarDefault,
    Message(TemplateMessage),
    List(Vec<TemplateValue>),
    MapEntry(Box<TemplateValue>, Box<TemplateValue>),
}

/// A template for one message: entries for the fields the template sets.
/// Scalar singular fields stay unset; rendering with defaults emitted
/// fills them in.
pub struct TemplateMessage {
    pub full_name: String,
    pub entries: Vec<(String, TemplateValue)>,
}

/// The fixed template shapes of the well-known `google.protobuf` types,
/// whichever of them the name denotes.
pub open spec fn wkt_shapes(nm: Seq<char>, t: TemplateMessage) -> bool {
    &&& (nm == "google.protobuf.Any"@ ==> any_template_shape(t))
    &&& (nm == "google.protobuf.Value"@ ==> value_template_shape(t))
    &&& (nm == "google.protobuf.ListValue"@ ==> list_value_template_shape(t))
    &&& (nm == "google.protobuf.Struct"@ ==> struct_template_shape(t))
}

/// Whether a template value fits a field kind: a sub-template carrying
/// the type's name (and, for the well-known types, their fixed shapes)
/// for message kinds, and a scalar default otherwise.
pub open spec fn value_matches_kind(k: FieldKind, v: TemplateValue) -> bool {
    match k {
        FieldKind::MessageType(n) => v matches TemplateValue::Message(sub) && sub.full_name@
            == n@ && wkt_shapes(n@, sub),
        _ => v is ScalarDefault,
    }
}

/// How one field appears in a template: absent for plain scalars, and a
/// shaped entry for message, repeated and map fields.
pub open spec fn field_entry_shape(f: FieldModel, e: (String, TemplateValue)) -> bool {
    &&& e.0@ == f.name@
    &&& (match f.map_kinds {
        Some(kv) => e.1 matches TemplateValue::MapEntry(key, value) && value_matches_kind(
            *kv.0,
            *key,
        ) && value_matches_kind(*kv.1, *value),
        None => if f.repeated {
            e.1 matches TemplateValue::List(items) && items@.len() == 1 && value_matches_kind(
                f.kind,
                items@[0],
            )
        } else {
            (match f.kind {
                FieldKind::MessageType(n) => e.1 matches TemplateValue::Message(sub)
                    && sub.full_name@ == n@ && wkt_shapes(n@, sub),
                _ => false,
            })
        },
    })
}

/// Whether a template sets a field: every map, repeated or message field,
/// and nothing else.
pub open spec fn field_is_set(f: FieldModel) -> bool {
    f.map_kinds is Some || f.repeated || f.kind is MessageType
}

/// The entries a message's fields produce, pointwise, among the first `n`
/// fields.
pub open spec fn entries_match_fields(
    fields: Seq<FieldModel>,
    entries: Seq<(String, TemplateValue)>,
    n: int,
) -> bool
    decreases n,
{
    if n <= 0 {
        entries.len() == 0
    } else {
        if field_is_set(fields[n - 1]) {
            entries.len() > 0 && field_entry_shape(fields[n - 1], entries.last())
                && entries_match_fields(fields, entries.drop_last(), n - 1)
        } else {
            entries_match_fields(fields, entries, n - 1)
        }
    }
}

/// Whether the template is the fixed shape for `google.protobuf.Any`:
/// only its type URL is set, pointing at the empty message.
pub open spec fn any_template_shape(t: TemplateMessage) -> bool {
    &&& t.entries@.len() == 1
    &&& t.entries@[0].0@ == "type_url"@
    &&& t.entries@[0].1 matches TemplateValue::StrVal(s) && s@
        == "type.googleapis.com/google.protobuf.Empty"@
}

/// Whether the template is the fixed shape for `google.protobuf.Value`:
/// a string value holding the hint text.
pub open spec fn value_template_shape(t: TemplateMessage) -> bool {
    &&& t.entries@.len() == 1
    &&& t.entries@[0].0@ == "string_value"@
    &&& t.entries@[0].1 matches TemplateValue::StrVal(s) && s@
        == "google.protobuf.Value supports arbitrary JSON"@
}

/// Whether the template is the fixed shape for
/// `google.protobuf.ListValue`: one hint `Value` element.
pub open spec fn list_value_template_shape(t: TemplateMessage) -> bool {
    &&& t.entries@.len() == 1
    &&& t.entries@[0].0@ == "values"@
    &&& t.entries@[0].1 matches TemplateValue::List(items) && items@.len() == 1 && (items@[0]
        matches TemplateValue::Message(v) && v.full_name@ == "google.protobuf.Value"@
        && value_template_shape(v))
}

/// Whether the template is the fixed shape for `google.protobuf.Struct`:
/// one map entry from a hint key to a hint `Value`.
pub open spec fn struct_template_shape(t: TemplateMessage) -> bool {
    &&& t.entries@.len() == 1
    &&& t.entries@[0].0@ == "fields"@
    &&& t.entries@[0].1 matches TemplateValue::MapEntry(key, value) && ((*key) matches
        TemplateValue::StrVal(k) && k@ == "key"@) && ((*value) matches TemplateValue::Message(v)
        && v.full_name@ == "google.protobuf.Value"@ && v.entries@.len() == 1
        && v.entries@[0].0@ == "string_value"@ && (v.entries@[0].1 matches TemplateValue::StrVal(
        s,
    ) && s@ == "google.protobuf.Struct supports arbitrary JSON objects"@))
}

/// Build a template for a message: message fields recurse (with cycle
/// detection on the visit stack), repeated fields get one element, map
/// fields one entry, and the `google.protobuf` well-known types get their
/// fixed shapes. Scalar fields stay unset. A message revisited on the
/// stack, or out of reach of the pool, contributes an empty template.
pub fn make_template(pool: &DescriptorPool, msg: &MessageModel) -> (r: TemplateMessage)
    ensures
        r.full_name@ == msg.full_name@,
        wkt_shapes(msg.full_name@, r),
        msg.full_name@ != "google.protobuf.Any"@ && msg.full_name@ != "google.protobuf.Value"@
            && msg.full_name@ != "google.protobuf.ListValue"@ && msg.full_name@
            != "google.protobuf.Struct"@ ==> entries_match_fields(
            msg.fields@,
            r.entries@,
            msg.fields@.len() as int,
        ),
{
    let mut stack: Vec<String> = Vec::new();
    let fuel = saturating_add(count_messages(pool), 1);
    proof {
        assert(!stack_has(stack@, msg.full_name@));
    }
    template_go(pool, msg, &mut stack, fuel)
}

/// The number of messages in the pool, nested ones included; the
/// recursion fuel bound.
fn count_messages(pool: &DescriptorPool) -> (n: u64)
{
    let mut total: u64 = 0;
    let mut i: usize = 0;
    while i < pool.files.len()
        invariant
            0 <= i <= pool.files@.len(),
        decreases pool.files@.len() - i,
    {
        let mut j: usize = 0;
        while j < pool.files[i].messages.len()
            invariant
                0 <= i < pool.files@.len(),
                0 <= j <= pool.files@[i as int].messages@.len(),
            decreases pool.files@[i as int].messages@.len() - j,
        {
            total = saturating_add(total, count_in_message(&pool.files[i].messages[j]));
            j = j + 1;
        }
        i = i + 1;
    }
    total
}

/// Saturating addition, so the fuel bound cannot overflow.
fn saturating_add(a: u64, b: u64) -> (r: u64)
    ensures
        r as int == (if a + b > u64::MAX {
            u64::MAX as int
        } else {
            a + b
        }),
{
    if a > u64::MAX - b {
        u64::MAX
    } else {
        a + b
    }
}

/// The number of messages in one message tree.
fn count_in_message(m: &MessageModel) -> (n: u64)
    decreases *m,
{
    let mut total: u64 = 1;
    let mut i: usize = 0;
    while i < m.nested_messages.len()
        invariant
            0 <= i <= m.nested_messages@.len(),
        decreases m.nested_messages@.len() - i,
    {
        total = saturating_add(total, count_in_message(&m.nested_messages[i]));
        i = i + 1;
    }
    total
}

/// Whether the visit stack holds this name.
pub open spec fn stack_has(stack: Seq<String>, name: Seq<char>) -> bool {
    exists|i: int| 0 <= i < stack.len() && (#[trigger] stack[i])@ == name
}

/// Whether the visit stack holds this name.
fn stack_contains(stack: &Vec<String>, name: &str) -> (r: bool)
    ensures
        r == stack_has(stack@, name@),
{
    let mut i: usize = 0;
    while i < stack.len()
        invariant
            0 <= i <= stack@.len(),
            forall|j: int| 0 <= j < i ==> (#[trigger] stack@[j])@ != name@,
        decreases stack@.len() - i,
    {
        if str_eq(stack[i].as_str(), name) {
            proof {
                assert(stack@[i as int]@ == name@);
            }
            return true;
        }
        i = i + 1;
    }
    false
}

/// The hint template for `google.protobuf.Value`.
fn value_hint_template() -> (r: TemplateMessage)
    ensures
        r.full_name@ == "google.protobuf.Value"@,
        value_template_shape(r),
{
    let mut entries: Vec<(String, TemplateValue)> = Vec::new();
    entries.push(
        (
            String::from_str("string_value"),
            TemplateValue::StrVal(
                String::from_str("google.protobuf.Value supports arbitrary JSON"),
            ),
        ),
    );
    TemplateMessage { full_name: String::from_str("google.protobuf.Value"), entries }
}

/// The fixed template for `google.protobuf.Any`: only its type URL,
/// naming the empty message.
fn any_template() -> (r: TemplateMessage)
    ensures
        r.full_name@ == "google.protobuf.Any"@,
        any_template_shape(r),
{
    let mut entries: Vec<(String, TemplateValue)> = Vec::new();
    entries.push(
        (
            String::from_str("type_url"),
            TemplateValue::StrVal(String::from_str("type.googleapis.com/google.protobuf.Empty")),
        ),
    );
    TemplateMessage { full_name: String::from_str("google.protobuf.Any"), entries }
}

/// The fixed template for `google.protobuf.ListValue`: one hint element.
fn list_value_template() -> (r: TemplateMessage)
    ensures
        r.full_name@ == "google.protobuf.ListValue"@,
        list_value_template_shape(r),
{
    let mut items: Vec<TemplateValue> = Vec::new();
    items.push(TemplateValue::Message(value_hint_template()));
    let mut entries: Vec<(String, TemplateValue)> = Vec::new();
    entries.push((String::from_str("values"), TemplateValue::List(items)));
    TemplateMessage { full_name: String::from_str("google.protobuf.ListValue"), entries }
}

/// The fixed template for `google.protobuf.Struct`: one hint map entry.
fn struct_template() -> (r: TemplateMessage)
    ensures
        r.full_name@ == "google.protobuf.Struct"@,
        struct_template_shape(r),
{
    let hint = TemplateMessage {
        full_name: String::from_str("google.protobuf.Value"),
        entries: vec![
            (
                String::from_str("string_value"),
                TemplateValue::StrVal(
                    String::from_str("google.protobuf.Struct supports arbitrary JSON objects"),
                ),
            ),
        ],
    };
    let mut entries: Vec<(String, TemplateValue)> = Vec::new();
    entries.push(
        (
            String::from_str("fields"),
            TemplateValue::MapEntry(
                Box::new(TemplateValue::StrVal(String::from_str("key"))),
                Box::new(TemplateValue::Message(hint)),
            ),
        ),
    );
    TemplateMessage { full_name: String::from_str("google.protobuf.Struct"), entries }
}

/// Whether a name denotes one of the well-known types with a fixed
/// template, and that template.
fn wkt_template(name: &str) -> (r: Option<TemplateMessage>)
    ensures
        r matches Some(t) ==> t.full_name@ == name@ && wkt_shapes(name@, t) && (name@
            == "google.protobuf.Any"@ || name@ == "google.protobuf.Value"@ || name@
            == "google.protobuf.ListValue"@ || name@ == "google.protobuf.Struct"@),
        r is None ==> name@ != "google.protobuf.Any"@ && name@ != "google.protobuf.Value"@
            && name@ != "google.protobuf.ListValue"@ && name@ != "google.protobuf.Struct"@,
{
    proof {
        reveal_strlit("google.protobuf.Any");
        reveal_strlit("google.protobuf.Value");
        reveal_strlit("google.protobuf.ListValue");
        reveal_strlit("google.protobuf.Struct");
        assert("google.protobuf.Any"@.len() != "google.protobuf.Value"@.len());
        assert("google.protobuf.Any"@.len() != "google.protobuf.ListValue"@.len());
        assert("google.protobuf.Any"@.len() != "google.protobuf.Struct"@.len());
        assert("google.protobuf.Value"@.len() != "google.protobuf.ListValue"@.len());
        assert("google.protobuf.Value"@[16] != "google.protobuf.Struct"@[16]);
        assert("google.protobuf.ListValue"@.len() != "google.protobuf.Struct"@.len());
    }
    if str_eq(name, "google.protobuf.Any") {
        return Some(any_template());
    }
    if str_eq(name, "google.protobuf.Value") {
        return Some(value_hint_template());
    }
    if str_eq(name, "google.protobuf.ListValue") {
        return Some(list_value_template());
    }
    if str_eq(name, "google.protobuf.Struct") {
        return Some(struct_template());
    }
    None
}

fn template_go(pool: &DescriptorPool, msg: &MessageModel, stack: &mut Vec<String>, fuel: u64) -> (r:
    TemplateMessage)
    ensures
        final(stack)@ == old(stack)@,
        r.full_name@ == msg.full_name@,
        wkt_shapes(msg.full_name@, r),
        msg.full_name@ != "google.protobuf.Any"@ && msg.full_name@ != "google.protobuf.Value"@
            && msg.full_name@ != "google.protobuf.ListValue"@ && msg.full_name@
            != "google.protobuf.Struct"@ && fuel > 0 && !stack_has(old(stack)@, msg.full_name@)
            ==> entries_match_fields(msg.fields@, r.entries@, msg.fields@.len() as int),
    decreases fuel, 2int,
{
    if let Some(t) = wkt_template(msg.full_name.as_str()) {
        return TemplateMessage { full_name: msg.full_name.clone(), entries: t.entries };
    }
    if fuel == 0 || stack_contains(stack, msg.full_name.as_str()) {
        let entries: Vec<(String, TemplateValue)> = Vec::new();
        return TemplateMessage { full_name: msg.full_name.clone(), entries };
    }
    stack.push(msg.full_name.clone());
    let ghost stack1 = stack@;
    let mut entries: Vec<(String, TemplateValue)> = Vec::new();
    let mut i: usize = 0;
    while i < msg.fields.len()
        invariant
            0 <= i <= msg.fields@.len(),
            stack@ == stack1,
            stack1.len() > 0,
            stack1.drop_last() == old(stack)@,
            entries_match_fields(msg.fields@, entries@, i as int),
        decreases msg.fields@.len() - i,
    {
        let f = &msg.fields[i];
        let ghost prev = entries@;
        match &f.map_kinds {
            Some(kv) => {
                let key = default_for_kind(pool, &kv.0, stack, fuel);
                let value = default_for_kind(pool, &kv.1, stack, fuel);
                entries.push(
                    (f.name.clone(), TemplateValue::MapEntry(Box::new(key), Box::new(value))),
                );
                proof {
                    assert(entries@.drop_last() =~= prev);
                    assert(field_entry_shape(msg.fields@[i as int], entries@.last()));
                    assert(entries_match_fields(msg.fields@, entries@, i as int + 1));
                }
            },
            None => {
                if f.repeated {
                    let element = default_for_kind(pool, &f.kind, stack, fuel);
                    let mut items: Vec<TemplateValue> = Vec::new();
                    items.push(element);
                    entries.push((f.name.clone(), TemplateValue::List(items)));
                    proof {
                        assert(entries@.drop_last() =~= prev);
                        assert(field_entry_shape(msg.fields@[i as int], entries@.last()));
                        assert(entries_match_fields(msg.fields@, entries@, i as int + 1));
                    }
                } else {
                    match &f.kind {
                        FieldKind::MessageType(n) => {
                            let sub = template_for_name(pool, n.as_str(), stack, fuel);
                            entries.push((f.name.clone(), TemplateValue::Message(sub)));
                            proof {
                                assert(entries@.drop_last() =~= prev);
                                assert(field_entry_shape(msg.fields@[i as int], entries@.last()));
                                assert(entries_match_fields(msg.fields@, entries@, i as int + 1));
                            }
                        },
                        _ => {
                            proof {
                                assert(!field_is_set(msg.fields@[i as int]));
                                assert(entries_match_fields(msg.fields@, entries@, i as int + 1));
                            }
                        },
                    }
                }
            },
        }
        i = i + 1;
    }
    let _ = stack.pop();
    proof {
        assert(final(stack)@ =~= old(stack)@);
    }
    TemplateMessage { full_name: msg.full_name.clone(), entries }
}

/// The default template value for one kind: a nested template for message
/// kinds, and a scalar default otherwise.
fn default_for_kind(pool: &DescriptorPool, kind: &FieldKind, stack: &mut Vec<String>, fuel: u64) -> (
    r: TemplateValue)
    ensures
        final(stack)@ == old(stack)@,
        value_matches_kind(*kind, r),
    decreases fuel, 1int,
{
    match kind {
        FieldKind::MessageType(n) => {
            TemplateValue::Message(template_for_name(pool, n.as_str(), stack, fuel))
        },
        _ => TemplateValue::ScalarDefault,
    }
}

/// The template for a message named `name`: the fixed shape for the
/// well-known types (pool or not), the recursive template when the pool
/// holds the message, and an empty template otherwise.
fn template_for_name(pool: &DescriptorPool, name: &str, stack: &mut Vec<String>, fuel: u64) -> (r:
    TemplateMessage)
    ensures
        final(stack)@ == old(stack)@,
        r.full_name@ == name@,
        wkt_shapes(name@, r),
    decreases fuel, 0int,
{
    if let Some(t) = wkt_template(name) {
        return TemplateMessage { full_name: name.to_owned(), entries: t.entries };
    }
    if fuel == 0 {
        return TemplateMessage { full_name: name.to_owned(), entries: Vec::new() };
    }
    match pool.get_message_by_name(name) {
        Some((_, sub)) => {
            let t = template_go(pool, sub, stack, fuel - 1);
            TemplateMessage { full_name: name.to_owned(), entries: t.entries }
        },
        None => TemplateMessage { full_name: name.to_owned(), entries: Vec::new() },
    }
}

} // verus!
