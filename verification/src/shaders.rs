use vstd::prelude::*;

verus! {

/// The stage a shader runs at.
#[derive(Clone, Copy, Debug, PartialEq, Eq, Structural)]
pub enum ShaderType {
    Vertex,
    Fragment,
    Geometry,
}

/// The lowercase form of a string, as `str::to_lowercase` gives it.
pub uninterp spec fn lowercase(s: Seq<char>) -> Seq<char>;

/// `str::to_lowercase`: the string with every character mapped to lowercase. What Unicode's
/// case tables give is not written out; the result is named `lowercase`.
#[verifier::external_body]
fn to_lowercase(s: &str) -> (r: String)
    ensures
        r@ == lowercase(s@),
{
    s.to_lowercase()
}

/// The shader type a lowercase name stands for: `vert` or `vertex`, `frag` or `fragment`,
/// `geom` or `geometry`.
pub open spec fn shader_type_named(s: Seq<char>) -> Option<ShaderType> {
    if s == "vert"@ || s == "vertex"@ {
        Some(ShaderType::Vertex)
    } else if s == "frag"@ || s == "fragment"@ {
        Some(ShaderType::Fragment)
    } else if s == "geom"@ || s == "geometry"@ {
        Some(ShaderType::Geometry)
    } else {
        None
    }
}

/// The message for a name that is no shader type.
pub open spec fn invalid_type_message(s: Seq<char>) -> Seq<char> {
    "Invalid Shader Type "@ + s
}

/// Whether two strings hold the same characters.
fn str_eq(a: &str, b: &str) -> (r: bool)
    ensures
        r == (a@ == b@),
{
    let n = a.unicode_len();
    if n != b.unicode_len() {
        return false;
    }
    let mut i: usize = 0;
    while i < n
        invariant
            n == a@.len(),
            n == b@.len(),
            i <= n,
            forall|j: int| 0 <= j < i ==> a@[j] == b@[j],
        decreases n - i,
    {
        if a.get_char(i) != b.get_char(i) {
            return false;
        }
        i = i + 1;
    }
    assert(a@ =~= b@);
    true
}

impl ShaderType {
    /// The shader type a lowercase name stands for (see `shader_type_named`).
    pub fn from_lowercase(name: &str) -> (r: Option<ShaderType>)
        ensures
            r == shader_type_named(name@),
    {
        proof {
            reveal_strlit("vert");
            reveal_strlit("vertex");
            reveal_strlit("frag");
            reveal_strlit("fragment");
            reveal_strlit("geom");
            reveal_strlit("geometry");
        }
        if str_eq(name, "vert") || str_eq(name, "vertex") {
            Some(ShaderType::Vertex)
        } else if str_eq(name, "frag") || str_eq(name, "fragment") {
            Some(ShaderType::Fragment)
        } else if str_eq(name, "geom") || str_eq(name, "geometry") {
            Some(ShaderType::Geometry)
        } else {
            None
        }
    }

    /// The shader type a name stands for, in any case; a name that stands for none gives
    /// the message `Invalid Shader Type ` followed by the name.
    pub fn parse(value: &str) -> (r: Result<ShaderType, String>)
        ensures
            match shader_type_named(lowercase(value@)) {
                Some(t) => r == Ok::<ShaderType, String>(t),
                None => r matches Err(e) && e@ == invalid_type_message(value@),
            },
    {
        let lower = to_lowercase(value);
        match ShaderType::from_lowercase(lower.as_str()) {
            Some(t) => Ok(t),
            None => {
                let mut message = String::from_str("Invalid Shader Type ");
                message.append(value);
                proof {
                    reveal_strlit("Invalid Shader Type ");
                }
                Err(message)
            },
        }
    }

    /// The name of the shader type: `Vertex`, `Fragment` or `Geometry`.
    pub fn to_string(&self) -> (s: String)
        ensures
            s@ == match self {
                ShaderType::Vertex => "Vertex"@,
                ShaderType::Fragment => "Fragment"@,
                ShaderType::Geometry => "Geometry"@,
            },
    {
        match self {
            ShaderType::Vertex => String::from_str("Vertex"),
            ShaderType::Fragment => String::from_str("Fragment"),
            ShaderType::Geometry => String::from_str("Geometry"),
        }
    }
}

impl<'a> TryFrom<&'a str> for ShaderType {
    type Error = String;

    fn try_from(value: &'a str) -> (r: Result<Self, Self::Error>)
        ensures
            match shader_type_named(lowercase(value@)) {
                Some(t) => r == Ok::<ShaderType, String>(t),
                None => r matches Err(e) && e@ == invalid_type_message(value@),
            },
    {
        ShaderType::parse(value)
    }
}

impl TryFrom<String> for ShaderType {
    type Error = String;

    fn try_from(value: String) -> (r: Result<Self, Self::Error>)
        ensures
            match shader_type_named(lowercase(value@)) {
                Some(t) => r == Ok::<ShaderType, String>(t),
                None => r matches Err(e) && e@ == invalid_type_message(value@),
            },
    {
        ShaderType::parse(value.as_str())
    }
}

/// The conversion promises nothing through the trait's own specification: a message string
/// cannot be named as a value there. Each `try_from` states what it gives in its `ensures`.
impl<'a> vstd::std_specs::convert::TryFromSpecImpl<&'a str> for ShaderType {
    open spec fn obeys_try_from_spec() -> bool {
        false
    }

    open spec fn try_from_spec(v: &'a str) -> Result<Self, String> {
        match shader_type_named(lowercase(v@)) {
            Some(t) => Ok(t),
            None => Err(choose|e: String| e@ == invalid_type_message(v@)),
        }
    }
}

impl vstd::std_specs::convert::TryFromSpecImpl<String> for ShaderType {
    open spec fn obeys_try_from_spec() -> bool {
        false
    }

    open spec fn try_from_spec(v: String) -> Result<Self, String> {
        match shader_type_named(lowercase(v@)) {
            Some(t) => Ok(t),
            None => Err(choose|e: String| e@ == invalid_type_message(v@)),
        }
    }
}

} // verus!
