//! Compiler options and their reading from command-line arguments.
use vstd::prelude::*;
use vstd::string::StrSliceExecFns;

verus! {

/// Target (output) language for the compiler.
#[derive(Copy, Clone, PartialEq, Eq, Structural, Debug)]
pub enum EmitTarget {
    /// SSA-based 3-operand abstract assembly (IR)
    Abstract,
    /// SysV AMD64 GNU/AT&T assembly
    X86_64,
    /// LLVM IR
    Llvm,
}

/// Configuration options for the compiler.
pub struct Config {
    /// Print time profiling by stages to terminal.
    pub verbose: bool,
    /// Print abstract syntax tree to terminal.
    pub dump_ast: bool,
    /// Stop after lexical, syntactic, and semantic analysis.
    pub check: bool,
    /// Desired level of optimizations.
    pub optimizer_level: u8,
    /// Enable or disable memory and arithmetic safety checks.
    pub allow_unsafe: bool,
    /// Print SSA intermediate representation to terminal.
    pub dump_ir: bool,
    /// Target language for the compiler.
    pub target: EmitTarget,
    /// Path to file of external declarations to link with source code.
    pub header: Option<String>,
    /// Path to source code file.
    pub source: Option<String>,
}

/// Model of the options: paths taken by their characters.
pub struct ConfigModel {
    pub verbose: bool,
    pub dump_ast: bool,
    pub check: bool,
    pub optimizer_level: u8,
    pub allow_unsafe: bool,
    pub dump_ir: bool,
    pub target: EmitTarget,
    pub header: Option<Seq<char>>,
    pub source: Option<Seq<char>>,
}

/// Characters of an optional string.
pub open spec fn opt_chars(s: Option<String>) -> Option<Seq<char>> {
    match s {
        Some(x) => Some(x@),
        None => None,
    }
}

impl View for Config {
    type V = ConfigModel;

    open spec fn view(&self) -> ConfigModel {
        ConfigModel {
            verbose: self.verbose,
            dump_ast: self.dump_ast,
            check: self.check,
            optimizer_level: self.optimizer_level,
            allow_unsafe: self.allow_unsafe,
            dump_ir: self.dump_ir,
            target: self.target,
            header: opt_chars(self.header),
            source: opt_chars(self.source),
        }
    }
}

/// The options before any argument is read: no optimization, safety checks on,
/// abstract IR as target, no files.
pub open spec fn initial_options() -> ConfigModel {
    ConfigModel {
        verbose: false,
        dump_ast: false,
        check: false,
        optimizer_level: 0,
        allow_unsafe: false,
        dump_ir: false,
        target: EmitTarget::Abstract,
        header: None,
        source: None,
    }
}

impl Default for Config {
    fn default() -> (r: Config)
        ensures
            r@ == initial_options(),
    {
        Config {
            verbose: false,
            dump_ast: false,
            check: false,
            optimizer_level: 0,
            allow_unsafe: false,
            dump_ir: false,
            target: EmitTarget::Abstract,
            header: None,
            source: None,
        }
    }
}

/// Why the command-line arguments were refused.
pub enum ArgError {
    /// The text after `-O` is no number from 0 to 255.
    InvalidOptimizationLevel,
    /// `-e` names no known target.
    UnknownTarget(String),
    /// `-e` is the last argument.
    ExpectedTarget,
    /// `-l` is the last argument.
    ExpectedHeader,
    /// An argument starts with `-` and is no known flag.
    UnknownFlag(String),
    /// No source file was given.
    ExpectedSource,
}

/// Model of an argument error: texts taken by their characters.
pub enum ArgErrorModel {
    InvalidOptimizationLevel,
    UnknownTarget(Seq<char>),
    ExpectedTarget,
    ExpectedHeader,
    UnknownFlag(Seq<char>),
    ExpectedSource,
}

impl View for ArgError {
    type V = ArgErrorModel;

    open spec fn view(&self) -> ArgErrorModel {
        match self {
            ArgError::InvalidOptimizationLevel => ArgErrorModel::InvalidOptimizationLevel,
            ArgError::UnknownTarget(s) => ArgErrorModel::UnknownTarget(s@),
            ArgError::ExpectedTarget => ArgErrorModel::ExpectedTarget,
            ArgError::ExpectedHeader => ArgErrorModel::ExpectedHeader,
            ArgError::UnknownFlag(s) => ArgErrorModel::UnknownFlag(s@),
            ArgError::ExpectedSource => ArgErrorModel::ExpectedSource,
        }
    }
}

/// A character is a decimal digit.
pub open spec fn is_digit(c: char) -> bool {
    '0' <= c <= '9'
}

/// Value of a string of decimal digits.
pub open spec fn digits_value(s: Seq<char>) -> int
    decreases s.len(),
{
    if s.len() == 0 {
        0
    } else {
        digits_value(s.drop_last()) * 10 + (s.last() as int - '0' as int)
    }
}

/// Every character is a decimal digit.
pub open spec fn all_digits(s: Seq<char>) -> bool {
    forall|k: int| 0 <= k < s.len() ==> is_digit(#[trigger] s[k])
}

/// The text after an optional leading `+`.
pub open spec fn unsigned_digits(s: Seq<char>) -> Seq<char> {
    if s.len() > 0 && s[0] == '+' {
        s.subrange(1, s.len() as int)
    } else {
        s
    }
}

/// The `u8` written by some text, as Rust reads one: an optional `+`, then one or more
/// decimal digits, of value at most 255.
pub open spec fn u8_value(s: Seq<char>) -> Option<u8> {
    let d = unsigned_digits(s);
    if d.len() > 0 && all_digits(d) && digits_value(d) <= 255 {
        Some(digits_value(d) as u8)
    } else {
        None
    }
}

/// Options read from the arguments from position `i` on, starting from `c`.
pub open spec fn options_from(a: Seq<Seq<char>>, i: int, c: ConfigModel) -> Result<ConfigModel, ArgErrorModel>
    decreases a.len() - i,
{
    if i < 0 || i >= a.len() {
        if c.source is None {
            Err(ArgErrorModel::ExpectedSource)
        } else {
            Ok(c)
        }
    } else {
        let x = a[i];
        if x == "-v"@ || x == "--verbose"@ {
            options_from(a, i + 1, ConfigModel { verbose: true, ..c })
        } else if x == "--dump-ast"@ {
            options_from(a, i + 1, ConfigModel { dump_ast: true, ..c })
        } else if x == "-t"@ || x == "--typecheck-only"@ {
            options_from(a, i + 1, ConfigModel { check: true, ..c })
        } else if x.len() >= 2 && x[0] == '-' && x[1] == 'O' {
            if x == "-O"@ {
                options_from(a, i + 1, ConfigModel { optimizer_level: 1, ..c })
            } else {
                match u8_value(x.subrange(2, x.len() as int)) {
                    Some(v) => options_from(a, i + 1, ConfigModel { optimizer_level: v, ..c }),
                    None => Err(ArgErrorModel::InvalidOptimizationLevel),
                }
            }
        } else if x == "-u"@ || x == "--unsafe"@ {
            options_from(a, i + 1, ConfigModel { allow_unsafe: true, ..c })
        } else if x == "--dump-ir"@ {
            options_from(a, i + 1, ConfigModel { dump_ir: true, ..c })
        } else if x == "-e"@ || x == "--emit"@ {
            if i + 1 < a.len() {
                let y = a[i + 1];
                if y == "abs"@ {
                    options_from(a, i + 2, ConfigModel { target: EmitTarget::Abstract, ..c })
                } else if y == "x86-64"@ {
                    options_from(a, i + 2, ConfigModel { target: EmitTarget::X86_64, ..c })
                } else if y == "llvm"@ {
                    options_from(a, i + 2, ConfigModel { target: EmitTarget::Llvm, ..c })
                } else {
                    Err(ArgErrorModel::UnknownTarget(y))
                }
            } else {
                Err(ArgErrorModel::ExpectedTarget)
            }
        } else if x == "-eabs"@ {
            options_from(a, i + 1, ConfigModel { target: EmitTarget::Abstract, ..c })
        } else if x == "-ex86-64"@ {
            options_from(a, i + 1, ConfigModel { target: EmitTarget::X86_64, ..c })
        } else if x == "-ellvm"@ {
            options_from(a, i + 1, ConfigModel { target: EmitTarget::Llvm, ..c })
        } else if x == "-l"@ || x == "--link"@ {
            if i + 1 < a.len() {
                options_from(a, i + 2, ConfigModel { header: Some(a[i + 1]), ..c })
            } else {
                Err(ArgErrorModel::ExpectedHeader)
            }
        } else if x.len() > 0 && x[0] == '-' {
            Err(ArgErrorModel::UnknownFlag(x))
        } else {
            options_from(a, i + 1, ConfigModel { source: Some(x), ..c })
        }
    }
}

/// Characters of each argument.
pub open spec fn arg_chars(args: Seq<String>) -> Seq<Seq<char>> {
    args.map_values(|s: String| s@)
}

/// Whether an argument is the given text.
fn is_arg(arg: &String, text: &str) -> (r: bool)
    ensures
        r == (arg@ == text@),
{
    let a = arg.as_str();
    let n = a.unicode_len();
    if n != text.unicode_len() {
        return false;
    }
    let mut k: usize = 0;
    while k < n
        invariant
            n == a@.len(),
            n == text@.len(),
            a@ == arg@,
            k <= n,
            forall|j: int| 0 <= j < k ==> a@[j] == text@[j],
        decreases n - k,
    {
        if a.get_char(k) != text.get_char(k) {
            return false;
        }
        k = k + 1;
    }
    proof {
        assert(a@ =~= text@);
    }
    true
}

proof fn lemma_digits_value_nonneg(s: Seq<char>)
    requires
        forall|k: int| 0 <= k < s.len() ==> is_digit(#[trigger] s[k]),
    ensures
        digits_value(s) >= 0,
    decreases s.len(),
{
    if s.len() > 0 {
        assert forall|k: int| 0 <= k < s.len() - 1 implies is_digit(#[trigger] s.drop_last()[k]) by {
            assert(s.drop_last()[k] == s[k]);
        }
        lemma_digits_value_nonneg(s.drop_last());
    }
}

/// Read the optimization level written after `-O`, from character `from` of `arg` on.
fn read_level(arg: &String, from: usize) -> (r: Option<u8>)
    requires
        from <= arg@.len(),
    ensures
        r == u8_value(arg@.subrange(from as int, arg@.len() as int)),
{
    let a = arg.as_str();
    let n = a.unicode_len();
    let ghost s = arg@.subrange(from as int, arg@.len() as int);
    let mut start = from;
    if start < n && a.get_char(start) == '+' {
        start = start + 1;
    }
    let ghost d = arg@.subrange(start as int, arg@.len() as int);
    proof {
        if s.len() > 0 && s[0] == '+' {
            assert(d =~= s.subrange(1, s.len() as int));
        } else {
            assert(d =~= s);
        }
    }
    if start >= n {
        proof {
            assert(d.len() == 0);
            assert(unsigned_digits(s) == d);
        }
        return None;
    }
    // The value read so far, held at 256 once it exceeds 255.
    let mut value: u32 = 0;
    let mut k = start;
    while k < n
        invariant
            n == a@.len(),
            a@ == arg@,
            start <= k <= n,
            start < n,
            d == arg@.subrange(start as int, arg@.len() as int),
            s == arg@.subrange(from as int, arg@.len() as int),
            d == unsigned_digits(s),
            forall|j: int| 0 <= j < k - start ==> is_digit(#[trigger] d[j]),
            value as int == if digits_value(d.take(k - start)) > 256 { 256 } else { digits_value(d.take(k - start)) },
            value <= 256,
        decreases n - k,
    {
        let c = a.get_char(k);
        if !('0' <= c && c <= '9') {
            proof {
                assert(!is_digit(d[k - start]));
                assert(!all_digits(d));
            }
            return None;
        }
        let digit = (c as u32) - ('0' as u32);
        proof {
            let p = d.take(k - start);
            let p1 = d.take(k - start + 1);
            assert(p1.drop_last() =~= p);
            assert(p1.last() == c);
            assert forall|j: int| 0 <= j < k - start implies is_digit(#[trigger] p[j]) by {
                assert(p[j] == d[j]);
            }
            lemma_digits_value_nonneg(p);
        }
        value = if value * 10 + digit > 256 {
            256
        } else {
            value * 10 + digit
        };
        k = k + 1;
    }
    proof {
        assert(d.take(d.len() as int) =~= d);
    }
    if value > 255 {
        None
    } else {
        Some(value as u8)
    }
}

/// Produce options from command-line arguments (the program's name first, then the
/// arguments proper); an argument that cannot be read gives the error it meets first.
pub fn parse_arguments(args: &Vec<String>) -> (r: Result<Config, ArgError>)
    ensures
        match r {
            Ok(c) => options_from(arg_chars(args@), 1, initial_options()) == Ok::<ConfigModel, ArgErrorModel>(c@),
            Err(e) => options_from(arg_chars(args@), 1, initial_options()) == Err::<ConfigModel, ArgErrorModel>(e@),
        },
{
    let ghost a = arg_chars(args@);
    let mut config = Config::default();
    let mut index: usize = 1;
    while index < args.len()
        invariant
            a == arg_chars(args@),
            1 <= index,
            options_from(a, index as int, config@) == options_from(a, 1, initial_options()),
        decreases args@.len() - index,
    {
        let arg = &args[index];
        proof {
            assert(a[index as int] == arg@);
        }
        if is_arg(arg, "-v") || is_arg(arg, "--verbose") {
            config.verbose = true;
        } else if is_arg(arg, "--dump-ast") {
            config.dump_ast = true;
        } else if is_arg(arg, "-t") || is_arg(arg, "--typecheck-only") {
            config.check = true;
        } else if arg.as_str().unicode_len() >= 2 && arg.as_str().get_char(0) == '-' && arg.as_str().get_char(1) == 'O' {
            if is_arg(arg, "-O") {
                config.optimizer_level = 1;
            } else {
                match read_level(arg, 2) {
                    Some(v) => {
                        config.optimizer_level = v;
                    },
                    None => {
                        return Err(ArgError::InvalidOptimizationLevel);
                    },
                }
            }
        } else if is_arg(arg, "-u") || is_arg(arg, "--unsafe") {
            config.allow_unsafe = true;
        } else if is_arg(arg, "--dump-ir") {
            config.dump_ir = true;
        } else if is_arg(arg, "-e") || is_arg(arg, "--emit") {
            if index + 1 < args.len() {
                let target = &args[index + 1];
                proof {
                    assert(a[index + 1] == target@);
                }
                if is_arg(target, "abs") {
                    config.target = EmitTarget::Abstract;
                } else if is_arg(target, "x86-64") {
                    config.target = EmitTarget::X86_64;
                } else if is_arg(target, "llvm") {
                    config.target = EmitTarget::Llvm;
                } else {
                    return Err(ArgError::UnknownTarget(target.clone()));
                }
                index = index + 1;
            } else {
                return Err(ArgError::ExpectedTarget);
            }
        } else if is_arg(arg, "-eabs") {
            config.target = EmitTarget::Abstract;
        } else if is_arg(arg, "-ex86-64") {
            config.target = EmitTarget::X86_64;
        } else if is_arg(arg, "-ellvm") {
            config.target = EmitTarget::Llvm;
        } else if is_arg(arg, "-l") || is_arg(arg, "--link") {
            if index + 1 < args.len() {
                proof {
                    assert(a[index + 1] == args@[index + 1]@);
                }
                config.header = Some(args[index + 1].clone());
                index = index + 1;
            } else {
                return Err(ArgError::ExpectedHeader);
            }
        } else if arg.as_str().unicode_len() > 0 && arg.as_str().get_char(0) == '-' {
            return Err(ArgError::UnknownFlag(arg.clone()));
        } else {
            config.source = Some(arg.clone());
        }
        index = index + 1;
    }
    if config.source.is_none() {
        return Err(ArgError::ExpectedSource);
    }
    Ok(config)
}

} // verus!
