//! The errors that the library reports.

use vstd::prelude::*;

verus! {

/// What kind of thing an error is about.
#[derive(Debug, Clone, Copy, PartialEq, Eq, Structural)]
pub enum ErrNoun {
    Mode,
    ChatChannel,
    ChannelName,
    AnalysisKind,
    LogKind,
    PingKind,
}

/// The file operation that failed.
#[derive(Debug, Clone, Copy, PartialEq, Eq, Structural)]
pub enum IoOp {
    Read,
    Write,
    List,
    Path,
    MakeDir,
}

impl IoOp {
    /// The words that describe the operation in an error message.
    pub fn describe(&self) -> (r: &'static str)
        ensures
            r@ == io_op_words(*self),
    {
        match self {
            IoOp::Path => "parse path",
            IoOp::Read => "read file",
            IoOp::Write => "write file",
            IoOp::List => "list directory",
            IoOp::MakeDir => "make directory",
        }
    }
}

/// The words that describe an operation in an error message.
pub open spec fn io_op_words(op: IoOp) -> Seq<char> {
    match op {
        IoOp::Path => "parse path"@,
        IoOp::Read => "read file"@,
        IoOp::Write => "write file"@,
        IoOp::List => "list directory"@,
        IoOp::MakeDir => "make directory"@,
    }
}

/// An error of the library.
#[derive(Debug)]
pub enum SolarError {
    /// A message for the user.
    Msg { msg: String },
    /// A keyed item that is not indexed.
    NotFound { noun: ErrNoun, key: String },
    /// An item that is looked up by an id that is not indexed.
    NotFoundId { noun: ErrNoun, id: u64 },
    /// An item that is given twice.
    Duplicate { noun: ErrNoun, item: String },
    /// An input that names no variant of an enumeration.
    Enum { noun: ErrNoun, input: String },
    /// A path whose variables could not be expanded.
    Path { path: String },
}

pub type SolarResult<T> = Result<T, SolarError>;

/// What an error says, as the contracts speak of it.
pub enum Fault {
    Msg(Seq<char>),
    NotFound(ErrNoun, Seq<char>),
    NotFoundId(ErrNoun, u64),
    Duplicate(ErrNoun, Seq<char>),
    Enum(ErrNoun, Seq<char>),
    Path(Seq<char>),
}

/// What the error `e` says.
pub open spec fn fault_of(e: SolarError) -> Fault {
    match e {
        SolarError::Msg { msg } => Fault::Msg(msg@),
        SolarError::NotFound { noun, key } => Fault::NotFound(noun, key@),
        SolarError::NotFoundId { noun, id } => Fault::NotFoundId(noun, id),
        SolarError::Duplicate { noun, item } => Fault::Duplicate(noun, item@),
        SolarError::Enum { noun, input } => Fault::Enum(noun, input@),
        SolarError::Path { path } => Fault::Path(path@),
    }
}

impl SolarError {
    /// An error that carries a message.
    pub fn msg(msg: String) -> (r: Self)
        ensures
            r == (SolarError::Msg { msg }),
    {
        SolarError::Msg { msg }
    }

    /// An error that carries a message, made from a string slice.
    pub fn msg_str(msg: &str) -> (r: Self)
        ensures
            r matches SolarError::Msg { msg: m } && m@ == msg@,
    {
        SolarError::Msg { msg: msg.to_owned() }
    }

    /// An error about an item given twice.
    pub fn duplicate(noun: ErrNoun, item: &str) -> (r: Self)
        ensures
            r matches SolarError::Duplicate { noun: n, item: i } && n == noun && i@ == item@,
    {
        SolarError::Duplicate { noun, item: item.to_owned() }
    }

    /// An error about a key that is not indexed.
    pub fn not_found(noun: ErrNoun, key: &str) -> (r: Self)
        ensures
            r matches SolarError::NotFound { noun: n, key: k } && n == noun && k@ == key@,
    {
        SolarError::NotFound { noun, key: key.to_owned() }
    }

    /// An error about an input that names no variant.
    pub fn err_enum(noun: ErrNoun, input: &str) -> (r: Self)
        ensures
            r matches SolarError::Enum { noun: n, input: i } && n == noun && i@ == input@,
    {
        SolarError::Enum { noun, input: input.to_owned() }
    }
}

impl SolarError {
    /// An error about a path whose variables could not be expanded.
    pub fn path(path: &str) -> (r: Self)
        ensures
            r matches SolarError::Path { path: p } && p@ == path@,
    {
        SolarError::Path { path: path.to_owned() }
    }
}

/// A message followed by the characters of `item`.
pub fn message_with(prefix: &str, item: &str) -> (r: String)
    ensures
        r@ == prefix@ + item@,
{
    let mut s = prefix.to_owned();
    s.append(item);
    s
}


/// Each item taken in turn through `step`: the results in order, or the fault of
/// the first item whose step fails.
pub open spec fn collect_all<A, T>(items: Seq<A>, step: spec_fn(A) -> Result<T, Fault>) -> Result<Seq<T>, Fault>
    decreases items.len(),
{
    if items.len() == 0 {
        Ok(seq![])
    } else {
        match collect_all(items.drop_last(), step) {
            Err(f) => Err(f),
            Ok(done) => match step(items.last()) {
                Ok(t) => Ok(done.push(t)),
                Err(f) => Err(f),
            },
        }
    }
}

/// Once a prefix of the items fails, every longer prefix fails the same way.
pub proof fn lemma_collect_all_fails<A, T>(
    items: Seq<A>,
    step: spec_fn(A) -> Result<T, Fault>,
    m: int,
    n: int,
)
    requires
        0 <= m <= n <= items.len(),
        collect_all(items.take(m), step) is Err,
    ensures
        collect_all(items.take(n), step) == collect_all(items.take(m), step),
    decreases n - m,
{
    if n > m {
        lemma_collect_all_fails(items, step, m, n - 1);
        let t = items.take(n);
        assert(t.drop_last() =~= items.take(n - 1));
    }
}

/// A prefix one item longer: the step of that item decides.
pub proof fn lemma_collect_all_step<A, T>(items: Seq<A>, step: spec_fn(A) -> Result<T, Fault>, i: int)
    requires
        0 <= i < items.len(),
    ensures
        collect_all(items.take(i + 1), step) == match collect_all(items.take(i), step) {
            Err(f) => Err(f),
            Ok(done) => match step(items[i]) {
                Ok(t) => Ok(done.push(t)),
                Err(f) => Err(f),
            },
        },
{
    let t = items.take(i + 1);
    assert(t.drop_last() =~= items.take(i));
    assert(t.last() == items[i]);
}


/// Where every item goes through, each result is that of its own item.
pub proof fn lemma_collect_all_each<A, T>(items: Seq<A>, step: spec_fn(A) -> Result<T, Fault>, out: Seq<T>)
    requires
        collect_all(items, step) == Ok::<Seq<T>, Fault>(out),
    ensures
        out.len() == items.len(),
        forall|k: int| 0 <= k < items.len() ==> #[trigger] step(items[k]) == Ok::<T, Fault>(out[k]),
    decreases items.len(),
{
    if items.len() > 0 {
        let t = items.drop_last();
        match collect_all(t, step) {
            Ok(done) => {
                lemma_collect_all_each(t, step, done);
                assert(out == done.push(out.last()));
                assert forall|k: int| 0 <= k < items.len() implies #[trigger] step(items[k]) == Ok::<T, Fault>(out[k]) by {
                    if k < t.len() {
                        assert(t[k] == items[k]);
                        assert(out[k] == done[k]);
                    }
                }
            },
            Err(_) => {},
        }
    }
}

} // verus!
