//! Error values of the AFNS standard library: a kind and a message, with
//! context lines that can be stacked on top of an error.

use vstd::prelude::*;

verus! {

/// The kinds of error that AFNS code can raise, each carrying its message.
pub enum AFNSError {
    /// Generic error with message
    Generic(String),
    /// I/O error
    Io(String),
    /// Parse error
    Parse(String),
    /// Network error
    Network(String),
    /// File system error
    FileSystem(String),
    /// Memory error
    Memory(String),
    /// Thread error
    Thread(String),
    /// Channel error
    Channel(String),
    /// Timeout error
    Timeout(String),
    /// Validation error
    Validation(String),
    /// Configuration error
    Configuration(String),
    /// Runtime error
    Runtime(String),
}

/// The text that names an error's kind, in front of its message.
pub open spec fn kind_prefix(e: AFNSError) -> Seq<char> {
    match e {
        AFNSError::Generic(_) => "Generic error: "@,
        AFNSError::Io(_) => "I/O error: "@,
        AFNSError::Parse(_) => "Parse error: "@,
        AFNSError::Network(_) => "Network error: "@,
        AFNSError::FileSystem(_) => "File system error: "@,
        AFNSError::Memory(_) => "Memory error: "@,
        AFNSError::Thread(_) => "Thread error: "@,
        AFNSError::Channel(_) => "Channel error: "@,
        AFNSError::Timeout(_) => "Timeout error: "@,
        AFNSError::Validation(_) => "Validation error: "@,
        AFNSError::Configuration(_) => "Configuration error: "@,
        AFNSError::Runtime(_) => "Runtime error: "@,
    }
}

/// The message that an error carries.
pub open spec fn inner_message(e: AFNSError) -> Seq<char> {
    match e {
        AFNSError::Generic(m) => m@,
        AFNSError::Io(m) => m@,
        AFNSError::Parse(m) => m@,
        AFNSError::Network(m) => m@,
        AFNSError::FileSystem(m) => m@,
        AFNSError::Memory(m) => m@,
        AFNSError::Thread(m) => m@,
        AFNSError::Channel(m) => m@,
        AFNSError::Timeout(m) => m@,
        AFNSError::Validation(m) => m@,
        AFNSError::Configuration(m) => m@,
        AFNSError::Runtime(m) => m@,
    }
}

/// The text of an error: its kind, then its message.
pub open spec fn error_text(e: AFNSError) -> Seq<char> {
    kind_prefix(e) + inner_message(e)
}

impl AFNSError {
    /// Create a generic error
    pub fn generic(msg: String) -> (e: Self)
        ensures
            e == AFNSError::Generic(msg),
    {
        AFNSError::Generic(msg)
    }

    /// Create an I/O error
    pub fn io(msg: String) -> (e: Self)
        ensures
            e == AFNSError::Io(msg),
    {
        AFNSError::Io(msg)
    }

    /// Create a parse error
    pub fn parse(msg: String) -> (e: Self)
        ensures
            e == AFNSError::Parse(msg),
    {
        AFNSError::Parse(msg)
    }

    /// Create a network error
    pub fn network(msg: String) -> (e: Self)
        ensures
            e == AFNSError::Network(msg),
    {
        AFNSError::Network(msg)
    }

    /// Create a file system error
    pub fn file_system(msg: String) -> (e: Self)
        ensures
            e == AFNSError::FileSystem(msg),
    {
        AFNSError::FileSystem(msg)
    }

    /// Create a memory error
    pub fn memory(msg: String) -> (e: Self)
        ensures
            e == AFNSError::Memory(msg),
    {
        AFNSError::Memory(msg)
    }

    /// Create a thread error
    pub fn thread(msg: String) -> (e: Self)
        ensures
            e == AFNSError::Thread(msg),
    {
        AFNSError::Thread(msg)
    }

    /// Create a channel error
    pub fn channel(msg: String) -> (e: Self)
        ensures
            e == AFNSError::Channel(msg),
    {
        AFNSError::Channel(msg)
    }

    /// Create a timeout error
    pub fn timeout(msg: String) -> (e: Self)
        ensures
            e == AFNSError::Timeout(msg),
    {
        AFNSError::Timeout(msg)
    }

    /// Create a validation error
    pub fn validation(msg: String) -> (e: Self)
        ensures
            e == AFNSError::Validation(msg),
    {
        AFNSError::Validation(msg)
    }

    /// Create a configuration error
    pub fn configuration(msg: String) -> (e: Self)
        ensures
            e == AFNSError::Configuration(msg),
    {
        AFNSError::Configuration(msg)
    }

    /// Create a runtime error
    pub fn runtime(msg: String) -> (e: Self)
        ensures
            e == AFNSError::Runtime(msg),
    {
        AFNSError::Runtime(msg)
    }

    /// Get the error message: the kind, then the message it carries
    pub fn message(&self) -> (s: String)
        ensures
            s@ == error_text(*self),
    {
        let (prefix, msg) = match self {
            AFNSError::Generic(m) => ("Generic error: ", m),
            AFNSError::Io(m) => ("I/O error: ", m),
            AFNSError::Parse(m) => ("Parse error: ", m),
            AFNSError::Network(m) => ("Network error: ", m),
            AFNSError::FileSystem(m) => ("File system error: ", m),
            AFNSError::Memory(m) => ("Memory error: ", m),
            AFNSError::Thread(m) => ("Thread error: ", m),
            AFNSError::Channel(m) => ("Channel error: ", m),
            AFNSError::Timeout(m) => ("Timeout error: ", m),
            AFNSError::Validation(m) => ("Validation error: ", m),
            AFNSError::Configuration(m) => ("Configuration error: ", m),
            AFNSError::Runtime(m) => ("Runtime error: ", m),
        };
        let mut s = String::from_str(prefix);
        s.append(msg.as_str());
        s
    }

    /// Check if this is a generic error
    pub fn is_generic(&self) -> (b: bool)
        ensures
            b == (*self is Generic),
    {
        matches!(self, AFNSError::Generic(_))
    }

    /// Check if this is an I/O error
    pub fn is_io(&self) -> (b: bool)
        ensures
            b == (*self is Io),
    {
        matches!(self, AFNSError::Io(_))
    }

    /// Check if this is a parse error
    pub fn is_parse(&self) -> (b: bool)
        ensures
            b == (*self is Parse),
    {
        matches!(self, AFNSError::Parse(_))
    }

    /// Check if this is a network error
    pub fn is_network(&self) -> (b: bool)
        ensures
            b == (*self is Network),
    {
        matches!(self, AFNSError::Network(_))
    }

    /// Check if this is a file system error
    pub fn is_file_system(&self) -> (b: bool)
        ensures
            b == (*self is FileSystem),
    {
        matches!(self, AFNSError::FileSystem(_))
    }

    /// Check if this is a memory error
    pub fn is_memory(&self) -> (b: bool)
        ensures
            b == (*self is Memory),
    {
        matches!(self, AFNSError::Memory(_))
    }

    /// Check if this is a thread error
    pub fn is_thread(&self) -> (b: bool)
        ensures
            b == (*self is Thread),
    {
        matches!(self, AFNSError::Thread(_))
    }

    /// Check if this is a channel error
    pub fn is_channel(&self) -> (b: bool)
        ensures
            b == (*self is Channel),
    {
        matches!(self, AFNSError::Channel(_))
    }

    /// Check if this is a timeout error
    pub fn is_timeout(&self) -> (b: bool)
        ensures
            b == (*self is Timeout),
    {
        matches!(self, AFNSError::Timeout(_))
    }

    /// Check if this is a validation error
    pub fn is_validation(&self) -> (b: bool)
        ensures
            b == (*self is Validation),
    {
        matches!(self, AFNSError::Validation(_))
    }

    /// Check if this is a configuration error
    pub fn is_configuration(&self) -> (b: bool)
        ensures
            b == (*self is Configuration),
    {
        matches!(self, AFNSError::Configuration(_))
    }

    /// Check if this is a runtime error
    pub fn is_runtime(&self) -> (b: bool)
        ensures
            b == (*self is Runtime),
    {
        matches!(self, AFNSError::Runtime(_))
    }
}

/// The context lines of an error, each on a line of its own after a
/// "Context:" heading; nothing when there are none.
pub open spec fn context_text(context: Seq<String>) -> Seq<char>
    decreases context.len(),
{
    if context.len() == 0 {
        Seq::empty()
    } else {
        context_lines(context)
    }
}

/// The "Context:" heading followed by one indented line per context entry.
pub open spec fn context_lines(context: Seq<String>) -> Seq<char>
    decreases context.len(),
{
    if context.len() == 0 {
        "\nContext:"@
    } else {
        context_lines(context.drop_last()) + "\n  - "@ + context.last()@
    }
}

/// Error context for adding additional information
pub struct AFNSErrorContext {
    error: AFNSError,
    context: Vec<String>,
}

impl AFNSErrorContext {
    /// The error that the context describes.
    pub closed spec fn spec_error(&self) -> AFNSError {
        self.error
    }

    /// The context lines, oldest first.
    pub closed spec fn spec_context(&self) -> Seq<String> {
        self.context@
    }

    /// Create a new error context
    pub fn new(error: AFNSError) -> (c: Self)
        ensures
            c.spec_error() == error,
            c.spec_context() == Seq::<String>::empty(),
    {
        Self { error, context: Vec::new() }
    }

    /// Add context information
    pub fn with_context(self, context: String) -> (c: Self)
        ensures
            c.spec_error() == self.spec_error(),
            c.spec_context() == self.spec_context().push(context),
    {
        let mut s = self;
        s.context.push(context);
        s
    }

    /// Get the error
    pub fn error(&self) -> (e: &AFNSError)
        ensures
            *e == self.spec_error(),
    {
        &self.error
    }

    /// Get the context
    pub fn context(&self) -> (c: &Vec<String>)
        ensures
            c@ == self.spec_context(),
    {
        &self.context
    }

    /// Get the full error message with context
    pub fn full_message(&self) -> (s: String)
        ensures
            s@ == error_text(self.spec_error()) + context_text(self.spec_context()),
    {
        let mut message = self.error.message();
        if self.context.len() > 0 {
            let ghost base = message@;
            message.append("\nContext:");
            let mut i: usize = 0;
            while i < self.context.len()
                invariant
                    i <= self.context@.len(),
                    message@ == base + context_lines(self.context@.take(i as int)),
                decreases self.context@.len() - i,
            {
                message.append("\n  - ");
                message.append(self.context[i].as_str());
                proof {
                    assert(self.context@.take(i + 1).drop_last() =~= self.context@.take(i as int));
                }
                i = i + 1;
            }
            assert(self.context@.take(i as int) =~= self.context@);
        } else {
            assert(message@ =~= message@ + context_text(self.context@));
        }
        message
    }
}

/// Error propagation utilities
pub struct AFNSErrorPropagation;

/// An error with context folded back into a plain error: a generic error
/// whose message is the full text with the context lines.
pub open spec fn folded_error_text(e: AFNSError, context: Seq<String>) -> Seq<char> {
    error_text(e) + context_text(context)
}

impl AFNSErrorPropagation {
    /// Propagate an error with context: an error becomes a generic error
    /// whose message is its text followed by the context line
    pub fn propagate_with_context<T>(result: Result<T, AFNSError>, context: String) -> (r: Result<
        T,
        AFNSError,
    >)
        ensures
            match result {
                Ok(v) => r == Ok::<T, AFNSError>(v),
                Err(e) => r matches Err(AFNSError::Generic(m)) && m@ == folded_error_text(
                    e,
                    seq![context],
                ),
            },
    {
        match result {
            Ok(v) => Ok(v),
            Err(e) => {
                let ctx = AFNSErrorContext::new(e).with_context(context);
                assert(ctx.spec_context() =~= seq![context]);
                Err(AFNSError::Generic(ctx.full_message()))
            },
        }
    }

    /// Propagate an error with multiple contexts, in the order given
    pub fn propagate_with_contexts<T>(result: Result<T, AFNSError>, contexts: Vec<String>) -> (r:
        Result<T, AFNSError>)
        ensures
            match result {
                Ok(v) => r == Ok::<T, AFNSError>(v),
                Err(e) => r matches Err(AFNSError::Generic(m)) && m@ == folded_error_text(
                    e,
                    contexts@,
                ),
            },
    {
        match result {
            Ok(v) => Ok(v),
            Err(e) => {
                let mut ctx = AFNSErrorContext::new(e);
                let mut i: usize = 0;
                while i < contexts.len()
                    invariant
                        i <= contexts@.len(),
                        ctx.spec_error() == e,
                        ctx.spec_context() == contexts@.take(i as int),
                    decreases contexts@.len() - i,
                {
                    ctx = ctx.with_context(contexts[i].clone());
                    assert(contexts@.take(i + 1) =~= contexts@.take(i as int).push(contexts@[i as int]));
                    i = i + 1;
                }
                assert(contexts@.take(i as int) =~= contexts@);
                Err(AFNSError::Generic(ctx.full_message()))
            },
        }
    }

    /// Convert a string to AFNS error
    pub fn from_string(error: String) -> (e: AFNSError)
        ensures
            e == AFNSError::Generic(error),
    {
        AFNSError::Generic(error)
    }

    /// Convert a string slice to AFNS error
    pub fn from_str(error: &str) -> (e: AFNSError)
        ensures
            e matches AFNSError::Generic(m) && m@ == error@,
    {
        AFNSError::Generic(String::from_str(error))
    }
}

} // verus!
