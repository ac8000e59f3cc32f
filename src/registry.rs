use vstd::prelude::*;
use vstd::string::*;

verus! {

/// The functions that an expression may call.
#[derive(Debug, Clone, Copy, PartialEq, Eq, Structural)]
pub enum Func {
    Abs,
    Acos,
    Acosh,
    Asin,
    Asinh,
    Atan,
    Atan2,
    Atanh,
    Cbrt,
    Ceil,
    Cos,
    Cosh,
    Exp,
    ExpM1,
    Floor,
    Hypot,
    Ln,
    Ln1p,
    Log,
    Log10,
    Log2,
    Max,
    Min,
    Pow,
    Round,
    Sin,
    Sinh,
    Sqrt,
    Tan,
    Tanh,
}

/// The function that a call name stands for, if any.
pub open spec fn func_named(name: Seq<char>) -> Option<Func> {
    if name == "abs"@ {
        Some(Func::Abs)
    } else if name == "acos"@ {
        Some(Func::Acos)
    } else if name == "acosh"@ {
        Some(Func::Acosh)
    } else if name == "asin"@ {
        Some(Func::Asin)
    } else if name == "asinh"@ {
        Some(Func::Asinh)
    } else if name == "atan"@ {
        Some(Func::Atan)
    } else if name == "atan2"@ {
        Some(Func::Atan2)
    } else if name == "atanh"@ {
        Some(Func::Atanh)
    } else if name == "cbrt"@ {
        Some(Func::Cbrt)
    } else if name == "ceil"@ {
        Some(Func::Ceil)
    } else if name == "cos"@ {
        Some(Func::Cos)
    } else if name == "cosh"@ {
        Some(Func::Cosh)
    } else if name == "exp"@ {
        Some(Func::Exp)
    } else if name == "exp_m1"@ {
        Some(Func::ExpM1)
    } else if name == "floor"@ {
        Some(Func::Floor)
    } else if name == "hypot"@ {
        Some(Func::Hypot)
    } else if name == "ln"@ {
        Some(Func::Ln)
    } else if name == "ln_1p"@ {
        Some(Func::Ln1p)
    } else if name == "log"@ {
        Some(Func::Log)
    } else if name == "log10"@ {
        Some(Func::Log10)
    } else if name == "log2"@ {
        Some(Func::Log2)
    } else if name == "max"@ {
        Some(Func::Max)
    } else if name == "min"@ {
        Some(Func::Min)
    } else if name == "pow"@ {
        Some(Func::Pow)
    } else if name == "round"@ {
        Some(Func::Round)
    } else if name == "sin"@ {
        Some(Func::Sin)
    } else if name == "sinh"@ {
        Some(Func::Sinh)
    } else if name == "sqrt"@ {
        Some(Func::Sqrt)
    } else if name == "tan"@ {
        Some(Func::Tan)
    } else if name == "tanh"@ {
        Some(Func::Tanh)
    } else {
        None
    }
}

/// The name under which a function is called.
pub open spec fn func_name(f: Func) -> Seq<char> {
    match f {
        Func::Abs => "abs"@,
        Func::Acos => "acos"@,
        Func::Acosh => "acosh"@,
        Func::Asin => "asin"@,
        Func::Asinh => "asinh"@,
        Func::Atan => "atan"@,
        Func::Atan2 => "atan2"@,
        Func::Atanh => "atanh"@,
        Func::Cbrt => "cbrt"@,
        Func::Ceil => "ceil"@,
        Func::Cos => "cos"@,
        Func::Cosh => "cosh"@,
        Func::Exp => "exp"@,
        Func::ExpM1 => "exp_m1"@,
        Func::Floor => "floor"@,
        Func::Hypot => "hypot"@,
        Func::Ln => "ln"@,
        Func::Ln1p => "ln_1p"@,
        Func::Log => "log"@,
        Func::Log10 => "log10"@,
        Func::Log2 => "log2"@,
        Func::Max => "max"@,
        Func::Min => "min"@,
        Func::Pow => "pow"@,
        Func::Round => "round"@,
        Func::Sin => "sin"@,
        Func::Sinh => "sinh"@,
        Func::Sqrt => "sqrt"@,
        Func::Tan => "tan"@,
        Func::Tanh => "tanh"@,
    }
}

/// How many arguments a function takes.
pub open spec fn func_arity(f: Func) -> nat {
    match f {
        Func::Abs => 1,
        Func::Acos => 1,
        Func::Acosh => 1,
        Func::Asin => 1,
        Func::Asinh => 1,
        Func::Atan => 1,
        Func::Atan2 => 2,
        Func::Atanh => 1,
        Func::Cbrt => 1,
        Func::Ceil => 1,
        Func::Cos => 1,
        Func::Cosh => 1,
        Func::Exp => 1,
        Func::ExpM1 => 1,
        Func::Floor => 1,
        Func::Hypot => 2,
        Func::Ln => 1,
        Func::Ln1p => 1,
        Func::Log => 2,
        Func::Log10 => 1,
        Func::Log2 => 1,
        Func::Max => 2,
        Func::Min => 2,
        Func::Pow => 2,
        Func::Round => 1,
        Func::Sin => 1,
        Func::Sinh => 1,
        Func::Sqrt => 1,
        Func::Tan => 1,
        Func::Tanh => 1,
    }
}

/// The name of the function in the scripting runtime. The two-argument
/// logarithm has no counterpart there and keeps its own name.
pub open spec fn script_name(f: Func) -> Seq<char> {
    match f {
        Func::Abs => "Math.abs"@,
        Func::Acos => "Math.acos"@,
        Func::Acosh => "Math.acosh"@,
        Func::Asin => "Math.asin"@,
        Func::Asinh => "Math.asinh"@,
        Func::Atan => "Math.atan"@,
        Func::Atan2 => "Math.atan2"@,
        Func::Atanh => "Math.atanh"@,
        Func::Cbrt => "Math.cbrt"@,
        Func::Ceil => "Math.ceil"@,
        Func::Cos => "Math.cos"@,
        Func::Cosh => "Math.cosh"@,
        Func::Exp => "Math.exp"@,
        Func::ExpM1 => "Math.expm1"@,
        Func::Floor => "Math.floor"@,
        Func::Hypot => "Math.hypot"@,
        Func::Ln => "Math.log"@,
        Func::Ln1p => "Math.log1p"@,
        Func::Log => "log"@,
        Func::Log10 => "Math.log10"@,
        Func::Log2 => "Math.log2"@,
        Func::Max => "Math.max"@,
        Func::Min => "Math.min"@,
        Func::Pow => "Math.pow"@,
        Func::Round => "Math.round"@,
        Func::Sin => "Math.sin"@,
        Func::Sinh => "Math.sinh"@,
        Func::Sqrt => "Math.sqrt"@,
        Func::Tan => "Math.tan"@,
        Func::Tanh => "Math.tanh"@,
    }
}

/// Whether two strings hold the same characters.
pub fn str_equal(a: &str, b: &str) -> (r: bool)
    ensures
        r == (a@ == b@),
{
    let n = a.unicode_len();
    let m = b.unicode_len();
    if n != m {
        return false;
    }
    let mut i: usize = 0;
    while i < n
        invariant
            n == a@.len(),
            m == b@.len(),
            n == m,
            i <= n,
            a@.subrange(0, i as int) == b@.subrange(0, i as int),
        decreases n - i,
    {
        if a.get_char(i) != b.get_char(i) {
            assert(a@[i as int] != b@[i as int]);
            return false;
        }
        assert(a@.subrange(0, i + 1) =~= a@.subrange(0, i as int).push(a@[i as int]));
        assert(b@.subrange(0, i + 1) =~= b@.subrange(0, i as int).push(b@[i as int]));
        i = i + 1;
    }
    assert(a@ =~= a@.subrange(0, n as int));
    assert(b@ =~= b@.subrange(0, n as int));
    true
}

impl Func {
    /// Looks a call name up in the registry.
    pub fn lookup(name: &str) -> (r: Option<Func>)
        ensures
            r == func_named(name@),
    {
        if str_equal(name, "abs") {
            Some(Func::Abs)
        } else if str_equal(name, "acos") {
            Some(Func::Acos)
        } else if str_equal(name, "acosh") {
            Some(Func::Acosh)
        } else if str_equal(name, "asin") {
            Some(Func::Asin)
        } else if str_equal(name, "asinh") {
            Some(Func::Asinh)
        } else if str_equal(name, "atan") {
            Some(Func::Atan)
        } else if str_equal(name, "atan2") {
            Some(Func::Atan2)
        } else if str_equal(name, "atanh") {
            Some(Func::Atanh)
        } else if str_equal(name, "cbrt") {
            Some(Func::Cbrt)
        } else if str_equal(name, "ceil") {
            Some(Func::Ceil)
        } else if str_equal(name, "cos") {
            Some(Func::Cos)
        } else if str_equal(name, "cosh") {
            Some(Func::Cosh)
        } else if str_equal(name, "exp") {
            Some(Func::Exp)
        } else if str_equal(name, "exp_m1") {
            Some(Func::ExpM1)
        } else if str_equal(name, "floor") {
            Some(Func::Floor)
        } else if str_equal(name, "hypot") {
            Some(Func::Hypot)
        } else if str_equal(name, "ln") {
            Some(Func::Ln)
        } else if str_equal(name, "ln_1p") {
            Some(Func::Ln1p)
        } else if str_equal(name, "log") {
            Some(Func::Log)
        } else if str_equal(name, "log10") {
            Some(Func::Log10)
        } else if str_equal(name, "log2") {
            Some(Func::Log2)
        } else if str_equal(name, "max") {
            Some(Func::Max)
        } else if str_equal(name, "min") {
            Some(Func::Min)
        } else if str_equal(name, "pow") {
            Some(Func::Pow)
        } else if str_equal(name, "round") {
            Some(Func::Round)
        } else if str_equal(name, "sin") {
            Some(Func::Sin)
        } else if str_equal(name, "sinh") {
            Some(Func::Sinh)
        } else if str_equal(name, "sqrt") {
            Some(Func::Sqrt)
        } else if str_equal(name, "tan") {
            Some(Func::Tan)
        } else if str_equal(name, "tanh") {
            Some(Func::Tanh)
        } else {
            None
        }
    }

    pub fn name(&self) -> (r: &'static str)
        ensures
            r@ == func_name(*self),
    {
        match self {
            Func::Abs => "abs",
            Func::Acos => "acos",
            Func::Acosh => "acosh",
            Func::Asin => "asin",
            Func::Asinh => "asinh",
            Func::Atan => "atan",
            Func::Atan2 => "atan2",
            Func::Atanh => "atanh",
            Func::Cbrt => "cbrt",
            Func::Ceil => "ceil",
            Func::Cos => "cos",
            Func::Cosh => "cosh",
            Func::Exp => "exp",
            Func::ExpM1 => "exp_m1",
            Func::Floor => "floor",
            Func::Hypot => "hypot",
            Func::Ln => "ln",
            Func::Ln1p => "ln_1p",
            Func::Log => "log",
            Func::Log10 => "log10",
            Func::Log2 => "log2",
            Func::Max => "max",
            Func::Min => "min",
            Func::Pow => "pow",
            Func::Round => "round",
            Func::Sin => "sin",
            Func::Sinh => "sinh",
            Func::Sqrt => "sqrt",
            Func::Tan => "tan",
            Func::Tanh => "tanh",
        }
    }

    pub fn arity(&self) -> (r: usize)
        ensures
            r == func_arity(*self),
    {
        match self {
            Func::Abs => 1,
            Func::Acos => 1,
            Func::Acosh => 1,
            Func::Asin => 1,
            Func::Asinh => 1,
            Func::Atan => 1,
            Func::Atan2 => 2,
            Func::Atanh => 1,
            Func::Cbrt => 1,
            Func::Ceil => 1,
            Func::Cos => 1,
            Func::Cosh => 1,
            Func::Exp => 1,
            Func::ExpM1 => 1,
            Func::Floor => 1,
            Func::Hypot => 2,
            Func::Ln => 1,
            Func::Ln1p => 1,
            Func::Log => 2,
            Func::Log10 => 1,
            Func::Log2 => 1,
            Func::Max => 2,
            Func::Min => 2,
            Func::Pow => 2,
            Func::Round => 1,
            Func::Sin => 1,
            Func::Sinh => 1,
            Func::Sqrt => 1,
            Func::Tan => 1,
            Func::Tanh => 1,
        }
    }

    pub fn script_name(&self) -> (r: &'static str)
        ensures
            r@ == script_name(*self),
    {
        match self {
            Func::Abs => "Math.abs",
            Func::Acos => "Math.acos",
            Func::Acosh => "Math.acosh",
            Func::Asin => "Math.asin",
            Func::Asinh => "Math.asinh",
            Func::Atan => "Math.atan",
            Func::Atan2 => "Math.atan2",
            Func::Atanh => "Math.atanh",
            Func::Cbrt => "Math.cbrt",
            Func::Ceil => "Math.ceil",
            Func::Cos => "Math.cos",
            Func::Cosh => "Math.cosh",
            Func::Exp => "Math.exp",
            Func::ExpM1 => "Math.expm1",
            Func::Floor => "Math.floor",
            Func::Hypot => "Math.hypot",
            Func::Ln => "Math.log",
            Func::Ln1p => "Math.log1p",
            Func::Log => "log",
            Func::Log10 => "Math.log10",
            Func::Log2 => "Math.log2",
            Func::Max => "Math.max",
            Func::Min => "Math.min",
            Func::Pow => "Math.pow",
            Func::Round => "Math.round",
            Func::Sin => "Math.sin",
            Func::Sinh => "Math.sinh",
            Func::Sqrt => "Math.sqrt",
            Func::Tan => "Math.tan",
            Func::Tanh => "Math.tanh",
        }
    }
}

} // verus!
