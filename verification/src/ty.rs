//! The types of the language and how they are written.
use vstd::prelude::*;
use vstd::string::*;

verus! {

/// A type of the language.
#[derive(Debug)]
pub enum Type {
    Unit,
    Bool,
    I64,
    F64,
    Tuple2(Box<Type>, Box<Type>),
    Tuple3(Box<Type>, Box<Type>, Box<Type>),
    Tuple4(Box<Type>, Box<Type>, Box<Type>, Box<Type>),
    /// parameter types, result type
    Func(Vec<Type>, Box<Type>),
    Own(String),
}

impl Type {
    /// How the type is written: `Unit`, `Bool`, `Int` and `Float`; a tuple as
    /// its parts in round brackets, separated by a comma and a blank; a
    /// function as its parameter types in round brackets, an arrow and its
    /// result type; any other type by its name.
    pub open spec fn text(&self) -> Seq<char>
        decreases self, 0nat,
    {
        match self {
            Type::Unit => "Unit"@,
            Type::Bool => "Bool"@,
            Type::I64 => "Int"@,
            Type::F64 => "Float"@,
            Type::Tuple2(a, b) => "("@ + a.text() + ", "@ + b.text() + ")"@,
            Type::Tuple3(a, b, c) => "("@ + a.text() + ", "@ + b.text() + ", "@ + c.text() + ")"@,
            Type::Tuple4(a, b, c, d) => "("@ + a.text() + ", "@ + b.text() + ", "@ + c.text()
                + ", "@ + d.text() + ")"@,
            Type::Func(i, o) => "("@ + listed(*i, 0) + ") -> "@ + o.text(),
            Type::Own(name) => name@,
        }
    }

    /// The type as text.
    #[verifier::loop_isolation(false)]
    pub fn render(&self) -> (r: String)
        ensures
            r@ == self.text(),
        decreases self,
    {
        match self {
            Type::Unit => String::from_str("Unit"),
            Type::Bool => String::from_str("Bool"),
            Type::I64 => String::from_str("Int"),
            Type::F64 => String::from_str("Float"),
            Type::Tuple2(a, b) => {
                let mut r = String::from_str("(");
                r.append(a.render().as_str());
                r.append(", ");
                r.append(b.render().as_str());
                r.append(")");
                r
            },
            Type::Tuple3(a, b, c) => {
                let mut r = String::from_str("(");
                r.append(a.render().as_str());
                r.append(", ");
                r.append(b.render().as_str());
                r.append(", ");
                r.append(c.render().as_str());
                r.append(")");
                r
            },
            Type::Tuple4(a, b, c, d) => {
                let mut r = String::from_str("(");
                r.append(a.render().as_str());
                r.append(", ");
                r.append(b.render().as_str());
                r.append(", ");
                r.append(c.render().as_str());
                r.append(", ");
                r.append(d.render().as_str());
                r.append(")");
                r
            },
            Type::Func(i, o) => {
                let mut r = String::from_str("(");
                let mut k: usize = 0;
                while k < i.len()
                    invariant
                        0 <= k <= i.len(),
                        r@ + listed(*i, k as nat) == "("@ + listed(*i, 0),
                    decreases i.len() - k,
                {
                    let ghost before = r@;
                    if k > 0 {
                        r.append(", ");
                    }
                    r.append(i[k].render().as_str());
                    proof {
                        let sep = if k > 0 {
                            ", "@
                        } else {
                            Seq::<char>::empty()
                        };
                        assert(r@ =~= before + sep + i[k as int].text());
                        assert(r@ + listed(*i, (k + 1) as nat) =~= before + (sep + i[k as int].text()
                            + listed(*i, (k + 1) as nat)));
                    }
                    k += 1;
                }
                proof {
                    assert(r@ + listed(*i, i.len() as nat) =~= r@);
                }
                r.append(") -> ");
                r.append(o.render().as_str());
                r
            },
            Type::Own(name) => name.clone(),
        }
    }
}

/// The types of a list from the type `i` on as text, each but the first of
/// the list with a comma and a blank in front.
pub open spec fn listed(v: Vec<Type>, i: nat) -> Seq<char>
    decreases v, v.len() - i,
{
    if i >= v.len() {
        Seq::empty()
    } else {
        (if i > 0 {
            ", "@
        } else {
            Seq::empty()
        }) + v[i as int].text() + listed(v, i + 1)
    }
}

} // verus!
