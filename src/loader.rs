use vstd::prelude::*;

use crate::filesystem::{octal_of, octal_text, parse_mode_text, parse_permissions};
use crate::task::{CopyTask, ShellTask, SymlinkTask, Task, TaskType, TemplateTask};

verus! {

/// A configuration value, as read from a YAML document.
pub enum ConfigValue {
    Null,
    Bool(bool),
    /// A non-negative integer.
    Integer(u64),
    Text(String),
    Sequence(Vec<ConfigValue>),
    Mapping(Vec<(ConfigValue, ConfigValue)>),
    /// Anything else (a float, a negative number, a tagged value).
    Other,
}

/// A configuration problem that stops the tool before anything runs.
#[derive(Debug)]
pub enum ConfigError {
    /// A list of task entries was expected.
    NotASequence,
    /// A task of the named kind lacks a field or has one of the wrong type.
    InvalidTask(String),
    /// A mode cannot be read as octal permission bits.
    InvalidPermissions,
    /// No task-definition file has the given name.
    MissingTaskFile(String),
    /// Task-definition files include each other too deeply (or in a cycle).
    IncludeTooDeep(String),
}

pub open spec fn is_leaf_kind(k: Seq<char>) -> bool {
    k == "copy"@ || k == "symlink"@ || k == "template"@ || k == "shell"@
}

/// The value stored under the text key `key`, the first such entry.
pub open spec fn lookup(m: Seq<(ConfigValue, ConfigValue)>, key: Seq<char>) -> Option<ConfigValue>
    decreases m.len(),
{
    if m.len() == 0 {
        None
    } else if m[0].0 is Text && m[0].0->Text_0@ == key {
        Some(m[0].1)
    } else {
        lookup(m.drop_first(), key)
    }
}

pub fn same_text(a: &str, b: &str) -> (r: bool)
    ensures
        r == (a@ == b@),
{
    let n = a.unicode_len();
    if n != b.unicode_len() {
        return false;
    }
    let mut i: usize = 0;
    while i < n
        invariant
            n == a@.len() == b@.len(),
            i <= n,
            forall|j: int| 0 <= j < i ==> a@[j] == b@[j],
        decreases n - i,
    {
        if a.get_char(i) != b.get_char(i) {
            return false;
        }
        i = i + 1;
    }
    assert(a@ =~= b@);
    true
}

pub fn find<'a>(m: &'a Vec<(ConfigValue, ConfigValue)>, key: &str) -> (r: Option<&'a ConfigValue>)
    ensures
        match r {
            Some(v) => lookup(m@, key@) == Some(*v),
            None => lookup(m@, key@) is None,
        },
{
    let mut i: usize = 0;
    assert(m@.subrange(0, m@.len() as int) =~= m@);
    while i < m.len()
        invariant
            i <= m.len(),
            lookup(m@, key@) == lookup(m@.subrange(i as int, m@.len() as int), key@),
        decreases m.len() - i,
    {
        assert(m@.subrange(i as int, m@.len() as int).drop_first() =~= m@.subrange(i + 1, m@.len() as int));
        if let ConfigValue::Text(k) = &m[i].0 {
            if same_text(k.as_str(), key) {
                return Some(&m[i].1);
            }
        }
        i = i + 1;
    }
    None
}

/// A text field of a task body.
pub open spec fn text_field(m: Seq<(ConfigValue, ConfigValue)>, key: Seq<char>) -> Option<Seq<char>> {
    match lookup(m, key) {
        Some(ConfigValue::Text(s)) => Some(s@),
        _ => None,
    }
}

fn get_text(m: &Vec<(ConfigValue, ConfigValue)>, key: &str) -> (r: Option<String>)
    ensures
        match r {
            Some(s) => text_field(m@, key@) == Some(s@),
            None => text_field(m@, key@) is None,
        },
{
    match find(m, key) {
        Some(ConfigValue::Text(s)) => Some(s.clone()),
        _ => None,
    }
}

/// The permission bits that a task body's `mode` field gives: `None` inside when there is
/// none, `None` outside when it is present but not a valid mode.
pub open spec fn mode_field(m: Seq<(ConfigValue, ConfigValue)>) -> Option<Option<nat>> {
    match lookup(m, "mode"@) {
        None => Some(None),
        Some(ConfigValue::Null) => Some(None),
        Some(ConfigValue::Integer(n)) => if n <= u32::MAX {
            match octal_of(n as nat) {
                Some(v) => Some(Some(v)),
                None => None,
            }
        } else {
            None
        },
        Some(ConfigValue::Text(t)) => match octal_text(t@) {
            Some(v) => Some(Some(v)),
            None => None,
        },
        _ => None,
    }
}

fn get_mode(m: &Vec<(ConfigValue, ConfigValue)>) -> (r: Result<Option<u32>, ConfigError>)
    ensures
        match mode_field(m@) {
            Some(x) => r is Ok && match r->Ok_0 {
                Some(v) => x == Some(v as nat),
                None => x is None,
            },
            None => r is Err && r->Err_0 is InvalidPermissions,
        },
{
    match find(m, "mode") {
        None => Ok(None),
        Some(ConfigValue::Null) => Ok(None),
        Some(ConfigValue::Integer(n)) => {
            if *n <= 0xffff_ffffu64 {
                match parse_permissions(Some(*n as u32)) {
                    Ok(v) => Ok(v),
                    Err(_) => Err(ConfigError::InvalidPermissions),
                }
            } else {
                Err(ConfigError::InvalidPermissions)
            }
        },
        Some(ConfigValue::Text(t)) => match parse_mode_text(t.as_str()) {
            Some(v) => Ok(Some(v)),
            None => Err(ConfigError::InvalidPermissions),
        },
        _ => Err(ConfigError::InvalidPermissions),
    }
}

/// `v` is the leaf of kind `kind` that the body `body` describes.
pub open spec fn leaf_of(kind: Seq<char>, body: ConfigValue, v: TaskType) -> bool {
    if kind == "shell"@ {
        body is Text && v is Shell && v->Shell_0.0@ == body->Text_0@
    } else {
        &&& body is Mapping
        &&& {
            let m = body->Mapping_0@;
            &&& text_field(m, "src"@) is Some
            &&& text_field(m, "dst"@) is Some
            &&& if kind == "symlink"@ {
                v is Symlink && v->Symlink_0.src@ == text_field(m, "src"@)->Some_0
                    && v->Symlink_0.dst@ == text_field(m, "dst"@)->Some_0
            } else {
                &&& mode_field(m) is Some
                &&& match v {
                    TaskType::Copy(c) => kind == "copy"@ && c.src@ == text_field(m, "src"@)->Some_0
                        && c.dst@ == text_field(m, "dst"@)->Some_0 && match c.mode {
                        Some(x) => mode_field(m) == Some(Some(x as nat)),
                        None => mode_field(m) == Some(None::<nat>),
                    },
                    TaskType::Template(c) => kind == "template"@ && c.src@ == text_field(m, "src"@)->Some_0
                        && c.dst@ == text_field(m, "dst"@)->Some_0 && match c.mode {
                        Some(x) => mode_field(m) == Some(Some(x as nat)),
                        None => mode_field(m) == Some(None::<nat>),
                    },
                    _ => false,
                }
            }
        }
    }
}

/// Reads the body of a leaf task of kind `kind` (one of the four leaf kinds).
pub fn parse_leaf(kind: &str, body: &ConfigValue) -> (r: Result<TaskType, ConfigError>)
    requires
        is_leaf_kind(kind@),
    ensures
        r is Ok ==> leaf_of(kind@, *body, r->Ok_0),
        r is Err ==> forall|v: TaskType| !#[trigger] leaf_of(kind@, *body, v),
{
    if same_text(kind, "shell") {
        return match body {
            ConfigValue::Text(c) => Ok(TaskType::Shell(ShellTask(c.clone()))),
            _ => Err(ConfigError::InvalidTask(kind.to_owned())),
        };
    }
    let m = match body {
        ConfigValue::Mapping(m) => m,
        _ => {
            return Err(ConfigError::InvalidTask(kind.to_owned()));
        },
    };
    let src = get_text(m, "src");
    let dst = get_text(m, "dst");
    if src.is_none() || dst.is_none() {
        return Err(ConfigError::InvalidTask(kind.to_owned()));
    }
    let src = src.unwrap();
    let dst = dst.unwrap();
    if same_text(kind, "symlink") {
        return Ok(TaskType::Symlink(SymlinkTask { src, dst }));
    }
    let mode = match get_mode(m) {
        Ok(x) => x,
        Err(e) => {
            return Err(e);
        },
    };
    if same_text(kind, "copy") {
        Ok(TaskType::Copy(CopyTask { src, dst, mode }))
    } else {
        Ok(TaskType::Template(TemplateTask { src, dst, mode }))
    }
}

/// The contents of the task-definition file named `name`, the first such.
pub open spec fn file_named(files: Seq<(String, ConfigValue)>, name: Seq<char>) -> Option<ConfigValue>
    decreases files.len(),
{
    if files.len() == 0 {
        None
    } else if files[0].0@ == name {
        Some(files[0].1)
    } else {
        file_named(files.drop_first(), name)
    }
}

fn find_file<'a>(files: &'a Vec<(String, ConfigValue)>, name: &str) -> (r: Option<&'a ConfigValue>)
    ensures
        match r {
            Some(v) => file_named(files@, name@) == Some(*v),
            None => file_named(files@, name@) is None,
        },
{
    let mut i: usize = 0;
    assert(files@.subrange(0, files@.len() as int) =~= files@);
    while i < files.len()
        invariant
            i <= files.len(),
            file_named(files@, name@) == file_named(files@.subrange(i as int, files@.len() as int), name@),
        decreases files.len() - i,
    {
        assert(files@.subrange(i as int, files@.len() as int).drop_first() =~= files@.subrange(i + 1, files@.len() as int));
        if same_text(files[i].0.as_str(), name) {
            return Some(&files[i].1);
        }
        i = i + 1;
    }
    None
}

/// The name of a leaf entry: its `name` field, else its kind.
pub open spec fn entry_name(m: Seq<(ConfigValue, ConfigValue)>, kind: Seq<char>) -> Seq<char> {
    match text_field(m, "name"@) {
        Some(n) => n,
        None => kind,
    }
}

/// Whether a leaf entry asks for elevated privileges: its `su` field, `false` by default.
pub open spec fn entry_su(m: Seq<(ConfigValue, ConfigValue)>) -> bool {
    match lookup(m, "su"@) {
        Some(ConfigValue::Bool(b)) => b,
        _ => false,
    }
}

/// `t` is the group named `name` that the entry list `v` describes, where files may include
/// others at most `fuel` levels deep.
pub open spec fn config_parsed(
    name: Seq<char>,
    v: ConfigValue,
    files: Seq<(String, ConfigValue)>,
    fuel: nat,
    t: Task,
) -> bool
    decreases fuel, v, 1nat,
{
    &&& v is Sequence
    &&& t.name@ == name
    &&& !t.as_superuser
    &&& t.variant is Group
    &&& t.variant->Group_0@.len() == v->Sequence_0@.len()
    &&& forall|i: int|
        0 <= i < v->Sequence_0@.len() ==> entry_parsed(
            #[trigger] v->Sequence_0@[i],
            files,
            fuel,
            t.variant->Group_0@[i],
        )
}

/// `t` is the task that the entry `e` describes.
pub open spec fn entry_parsed(e: ConfigValue, files: Seq<(String, ConfigValue)>, fuel: nat, t: Task) -> bool
    decreases fuel, e, 0nat,
{
    match e {
        ConfigValue::Text(s) => match file_named(files, s@) {
            Some(c) => fuel > 0 && config_parsed(s@, c, files, (fuel - 1) as nat, t),
            None => false,
        },
        ConfigValue::Mapping(m) => if m@.len() > 0 && m@[0].0 is Text {
            let k = m@[0].0->Text_0@;
            if is_leaf_kind(k) {
                leaf_of(k, m@[0].1, t.variant) && t.name@ == entry_name(m@, k) && t.as_superuser
                    == entry_su(m@)
            } else {
                config_parsed(k, m@[0].1, files, fuel, t)
            }
        } else {
            t.name@ == "unknown"@ && !t.as_superuser && t.variant is Unknown
        },
        _ => t.name@ == "unknown"@ && !t.as_superuser && t.variant is Unknown,
    }
}

fn leaf_kind(k: &str) -> (r: bool)
    ensures
        r == is_leaf_kind(k@),
{
    same_text(k, "copy") || same_text(k, "symlink") || same_text(k, "template") || same_text(k, "shell")
}

fn parse_entry(e: &ConfigValue, files: &Vec<(String, ConfigValue)>, fuel: usize) -> (r: Result<Task, ConfigError>)
    ensures
        r is Ok ==> entry_parsed(*e, files@, fuel as nat, r->Ok_0),
        r is Err ==> forall|t: Task| !#[trigger] entry_parsed(*e, files@, fuel as nat, t),
    decreases fuel, e, 0nat,
{
    match e {
        ConfigValue::Text(s) => match find_file(files, s.as_str()) {
            Some(c) => {
                if fuel == 0 {
                    Err(ConfigError::IncludeTooDeep(s.clone()))
                } else {
                    let r = parse_tasks(s.as_str(), c, files, fuel - 1);
                    proof {
                        if r is Err {
                            assert forall|t: Task| !#[trigger] entry_parsed(*e, files@, fuel as nat, t) by {
                                assert(!config_parsed(s@, *c, files@, (fuel - 1) as nat, t));
                            }
                        }
                    }
                    r
                }
            },
            None => Err(ConfigError::MissingTaskFile(s.clone())),
        },
        ConfigValue::Mapping(m) => {
            if m.len() > 0 {
                if let ConfigValue::Text(k) = &m[0].0 {
                    if leaf_kind(k.as_str()) {
                        let variant = match parse_leaf(k.as_str(), &m[0].1) {
                            Ok(v) => v,
                            Err(err) => {
                                assert forall|t: Task| !#[trigger] entry_parsed(*e, files@, fuel as nat, t) by {
                                    assert(!leaf_of(k@, m@[0].1, t.variant));
                                }
                                return Err(err);
                            },
                        };
                        let name = match get_text(m, "name") {
                            Some(n) => n,
                            None => k.clone(),
                        };
                        let as_superuser = match find(m, "su") {
                            Some(ConfigValue::Bool(b)) => *b,
                            _ => false,
                        };
                        return Ok(Task { name, as_superuser, variant });
                    } else {
                        proof {
                            assert(decreases_to!(*e => *m));
                            assert(decreases_to!(*m => m@[0]));
                        }
                        let r = parse_tasks(k.as_str(), &m[0].1, files, fuel);
                        proof {
                            if r is Err {
                                assert forall|t: Task| !#[trigger] entry_parsed(*e, files@, fuel as nat, t) by {
                                    assert(!config_parsed(k@, m@[0].1, files@, fuel as nat, t));
                                }
                            }
                        }
                        return r;
                    }
                }
            }
            Ok(Task::new("unknown", TaskType::Unknown))
        },
        _ => Ok(Task::new("unknown", TaskType::Unknown)),
    }
}

fn parse_tasks(name: &str, config: &ConfigValue, files: &Vec<(String, ConfigValue)>, fuel: usize) -> (r: Result<Task, ConfigError>)
    ensures
        r is Ok ==> config_parsed(name@, *config, files@, fuel as nat, r->Ok_0),
        r is Err ==> forall|t: Task| !#[trigger] config_parsed(name@, *config, files@, fuel as nat, t),
    decreases fuel, config, 1nat,
{
    let items = match config {
        ConfigValue::Sequence(items) => items,
        _ => {
            return Err(ConfigError::NotASequence);
        },
    };
    proof {
        assert(decreases_to!(*config => *items));
        assert forall|j: int| 0 <= j < items@.len() implies decreases_to!(*config => #[trigger] items@[j]) by {
            assert(decreases_to!(*items => items@[j]));
        }
    }
    let mut tasks: Vec<Task> = Vec::new();
    let mut i: usize = 0;
    while i < items.len()
        invariant
            i <= items.len(),
            forall|j: int| 0 <= j < items@.len() ==> decreases_to!(*config => #[trigger] items@[j]),
            *config == ConfigValue::Sequence(*items),
            tasks@.len() == i,
            forall|j: int| 0 <= j < i ==> entry_parsed(#[trigger] items@[j], files@, fuel as nat, tasks@[j]),
        decreases items.len() - i,
    {
        match parse_entry(&items[i], files, fuel) {
            Ok(t) => {
                tasks.push(t);
            },
            Err(err) => {
                assert forall|t: Task| !#[trigger] config_parsed(name@, *config, files@, fuel as nat, t) by {
                    if config_parsed(name@, *config, files@, fuel as nat, t) {
                        assert(entry_parsed(items@[i as int], files@, fuel as nat, t.variant->Group_0@[i as int]));
                    }
                }
                return Err(err);
            },
        }
        i = i + 1;
    }
    Ok(Task::group(name, tasks))
}

impl Task {
    /// Builds the group named `task_name` from a list of task entries. A text entry includes
    /// the task-definition file of that name from `files`; includes may nest as deep as there
    /// are files, no deeper.
    pub fn parse_from_config(task_name: &str, config: &ConfigValue, files: &Vec<(String, ConfigValue)>) -> (r: Result<Task, ConfigError>)
        ensures
            r is Ok ==> config_parsed(task_name@, *config, files@, files@.len(), r->Ok_0),
            r is Err ==> forall|t: Task| !#[trigger] config_parsed(task_name@, *config, files@, files@.len(), t),
    {
        parse_tasks(task_name, config, files, files.len())
    }
}

/// The texts that stand directly in a list anywhere inside `v`, in document order: the
/// task-definition files that `v` may include.
pub open spec fn listed(v: ConfigValue) -> Seq<Seq<char>>
    decreases v,
{
    match v {
        ConfigValue::Sequence(items) => listed_items(items@),
        ConfigValue::Mapping(m) => listed_values(m@),
        _ => Seq::empty(),
    }
}

pub open spec fn listed_items(s: Seq<ConfigValue>) -> Seq<Seq<char>>
    decreases s,
{
    if s.len() == 0 {
        Seq::empty()
    } else {
        let own = match s.last() {
            ConfigValue::Text(t) => seq![t@],
            _ => Seq::empty(),
        };
        listed_items(s.drop_last()) + own + listed(s.last())
    }
}

pub open spec fn listed_values(m: Seq<(ConfigValue, ConfigValue)>) -> Seq<Seq<char>>
    decreases m,
{
    if m.len() == 0 {
        Seq::empty()
    } else {
        listed_values(m.drop_last()) + listed(m.last().1)
    }
}

pub open spec fn texts(s: Seq<String>) -> Seq<Seq<char>> {
    s.map_values(|x: String| x@)
}

/// Appends to `out` the texts that stand directly in a list anywhere inside `v`.
pub fn listed_names(v: &ConfigValue, out: &mut Vec<String>)
    ensures
        texts(final(out)@) == texts(old(out)@) + listed(*v),
    decreases v,
{
    let ghost start = texts(out@);
    match v {
        ConfigValue::Sequence(items) => {
            proof {
                assert forall|j: int| 0 <= j < items@.len() implies decreases_to!(*v => #[trigger] items@[j]) by {
                    assert(decreases_to!(*v => *items));
                    assert(decreases_to!(*items => items@[j]));
                }
            }
            let mut i: usize = 0;
            assert(items@.take(0) =~= Seq::<ConfigValue>::empty());
            assert(texts(out@) =~= start + listed_items(items@.take(0)));
            while i < items.len()
                invariant
                    i <= items.len(),
                    *v == ConfigValue::Sequence(*items),
                    forall|j: int| 0 <= j < items@.len() ==> decreases_to!(*v => #[trigger] items@[j]),
                    texts(out@) == start + listed_items(items@.take(i as int)),
                decreases items.len() - i,
            {
                let ghost before = texts(out@);
                let item = &items[i];
                if let ConfigValue::Text(t) = item {
                    out.push(t.clone());
                }
                let ghost mid = texts(out@);
                listed_names(item, out);
                proof {
                    let pre = items@.take(i + 1);
                    assert(pre.drop_last() =~= items@.take(i as int));
                    assert(pre.last() == items@[i as int]);
                    let own = match items@[i as int] {
                        ConfigValue::Text(t) => seq![t@],
                        _ => Seq::empty(),
                    };
                    assert(mid =~= before + own);
                    assert(texts(out@) =~= start + listed_items(pre));
                }
                i = i + 1;
            }
            assert(items@.take(i as int) =~= items@);
        },
        ConfigValue::Mapping(m) => {
            proof {
                assert forall|j: int| 0 <= j < m@.len() implies decreases_to!(*v => #[trigger] m@[j].1) by {
                    assert(decreases_to!(*v => *m));
                    assert(decreases_to!(*m => m@[j]));
                }
            }
            let mut i: usize = 0;
            assert(m@.take(0) =~= Seq::<(ConfigValue, ConfigValue)>::empty());
            assert(texts(out@) =~= start + listed_values(m@.take(0)));
            while i < m.len()
                invariant
                    i <= m.len(),
                    *v == ConfigValue::Mapping(*m),
                    forall|j: int| 0 <= j < m@.len() ==> decreases_to!(*v => #[trigger] m@[j].1),
                    texts(out@) == start + listed_values(m@.take(i as int)),
                decreases m.len() - i,
            {
                let ghost before = texts(out@);
                listed_names(&m[i].1, out);
                proof {
                    let pre = m@.take(i + 1);
                    assert(pre.drop_last() =~= m@.take(i as int));
                    assert(pre.last() == m@[i as int]);
                    assert(texts(out@) =~= start + listed_values(pre));
                }
                i = i + 1;
            }
            assert(m@.take(i as int) =~= m@);
        },
        _ => {
            assert(texts(out@) =~= start + Seq::empty());
        },
    }
}

} // verus!
