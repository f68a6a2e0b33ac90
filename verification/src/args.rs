use vstd::prelude::*;

verus! {

/// The voxel scene a run builds.
#[derive(Clone, Copy, Debug, PartialEq, Eq, Structural)]
pub enum Scene {
    Single,
    Cube,
    Perlin,
}

impl Scene {
    /// Every scene, in declaration order.
    pub fn all() -> (s: [Scene; 3])
        ensures
            s@ == seq![Scene::Single, Scene::Cube, Scene::Perlin],
    {
        let s = [Self::Single, Self::Cube, Self::Perlin];
        assert(s@ =~= seq![Scene::Single, Scene::Cube, Scene::Perlin]);
        s
    }
}

/// The renderer a run tests.
#[derive(Clone, Copy, Debug, PartialEq, Eq, Structural)]
pub enum Test {
    Tri,
    Basic,
    Instanced,
    Culled,
    Greedy,
    Raymarch,
    Flat,
    Svt64,
}

impl Test {
    /// The renderers that an automatic run goes through, in order.
    pub fn iter() -> (t: [Test; 4])
        ensures
            t@ == seq![Test::Basic, Test::Instanced, Test::Culled, Test::Greedy],
    {
        let t = [Self::Basic, Self::Instanced, Self::Culled, Self::Greedy];
        assert(t@ =~= seq![Test::Basic, Test::Instanced, Test::Culled, Test::Greedy]);
        t
    }
}

/// The options of a run.
#[derive(Clone, Copy, Debug, PartialEq, Eq, Structural)]
pub struct Args {
    pub scene: Scene,
    pub test: Test,
    pub radius: i32,
    pub depth: i32,
    pub frustum_cull: bool,
    pub combine: bool,
    pub vertex_pull: bool,
    pub profile: bool,
    pub auto_test: bool,
}

/// The flag letters of a run's label: a space and then `F` for frustum culling, `V` for
/// vertex pulling and `C` for combined draws, or nothing when none is on.
pub open spec fn flag_letters(frustum_cull: bool, vertex_pull: bool, combine: bool) -> Seq<char> {
    if frustum_cull || vertex_pull || combine {
        seq![' '] + (if frustum_cull { seq!['F'] } else { Seq::empty() }) + (if vertex_pull {
            seq!['V']
        } else {
            Seq::empty()
        }) + (if combine { seq!['C'] } else { Seq::empty() })
    } else {
        Seq::empty()
    }
}

impl Args {
    /// The options of a plain run: the single-voxel scene, culled meshing, radius 32, depth 20
    /// and every switch off.
    pub fn default() -> (a: Self)
        ensures
            a == (Args {
                scene: Scene::Single,
                test: Test::Culled,
                radius: 32,
                depth: 20,
                frustum_cull: false,
                combine: false,
                vertex_pull: false,
                profile: false,
                auto_test: false,
            }),
    {
        Self {
            scene: Scene::Single,
            test: Test::Culled,
            radius: 32,
            depth: 20,
            frustum_cull: false,
            combine: false,
            vertex_pull: false,
            profile: false,
            auto_test: false,
        }
    }

    /// Whether a run's label shows the radius: only the noise scene has one.
    pub fn shows_radius(&self) -> (r: bool)
        ensures
            r == (self.scene == Scene::Perlin),
    {
        self.scene == Scene::Perlin
    }

    /// The flag letters of the run's label (see `flag_letters`).
    pub fn flags(&self) -> (s: String)
        ensures
            s@ == flag_letters(self.frustum_cull, self.vertex_pull, self.combine),
    {
        proof {
            reveal_strlit(" ");
            reveal_strlit("F");
            reveal_strlit("V");
            reveal_strlit("C");
        }
        let mut flags = String::new();
        if self.frustum_cull || self.combine || self.vertex_pull {
            flags.append(" ");
        }
        if self.frustum_cull {
            flags.append("F");
        }
        if self.vertex_pull {
            flags.append("V");
        }
        if self.combine {
            flags.append("C");
        }
        assert(flags@ =~= flag_letters(self.frustum_cull, self.vertex_pull, self.combine));
        flags
    }
}

/// The character of a decimal digit.
pub open spec fn digit_char(d: nat) -> char {
    if d == 0 { '0' } else if d == 1 { '1' } else if d == 2 { '2' } else if d == 3 { '3' } else if d == 4 {
        '4'
    } else if d == 5 { '5' } else if d == 6 { '6' } else if d == 7 { '7' } else if d == 8 { '8' } else { '9' }
}

/// The decimal digits of `n`, most significant first.
pub open spec fn decimal_of(n: nat) -> Seq<char>
    decreases n,
{
    if n < 10 {
        seq![digit_char(n)]
    } else {
        decimal_of(n / 10) + seq![digit_char(n % 10)]
    }
}

/// The decimal form of an integer: a minus sign before the digits of a negative one.
pub open spec fn signed_decimal_of(v: int) -> Seq<char> {
    if v < 0 {
        seq!['-'] + decimal_of((-v) as nat)
    } else {
        decimal_of(v as nat)
    }
}

/// The name of a scene, as its variant is written.
pub open spec fn scene_name(s: Scene) -> Seq<char> {
    match s {
        Scene::Single => seq!['S', 'i', 'n', 'g', 'l', 'e'],
        Scene::Cube => seq!['C', 'u', 'b', 'e'],
        Scene::Perlin => seq!['P', 'e', 'r', 'l', 'i', 'n'],
    }
}

/// The name of a renderer test, as its variant is written.
pub open spec fn test_name(t: Test) -> Seq<char> {
    match t {
        Test::Tri => seq!['T', 'r', 'i'],
        Test::Basic => seq!['B', 'a', 's', 'i', 'c'],
        Test::Instanced => seq!['I', 'n', 's', 't', 'a', 'n', 'c', 'e', 'd'],
        Test::Culled => seq!['C', 'u', 'l', 'l', 'e', 'd'],
        Test::Greedy => seq!['G', 'r', 'e', 'e', 'd', 'y'],
        Test::Raymarch => seq!['R', 'a', 'y', 'm', 'a', 'r', 'c', 'h'],
        Test::Flat => seq!['F', 'l', 'a', 't'],
        Test::Svt64 => seq!['S', 'v', 't', '6', '4'],
    }
}

/// The label of a run: the scene, then a space and the radius for the noise scene, then a
/// comma, a space, the test and the flag letters.
pub open spec fn label_of(a: Args) -> Seq<char> {
    scene_name(a.scene) + (if a.scene == Scene::Perlin {
        seq![' '] + signed_decimal_of(a.radius as int)
    } else {
        Seq::empty()
    }) + seq![',', ' '] + test_name(a.test) + flag_letters(a.frustum_cull, a.vertex_pull, a.combine)
}

fn append_digit(s: &mut String, d: u32)
    requires
        d < 10,
    ensures
        final(s)@ == old(s)@ + seq![digit_char(d as nat)],
{
    proof {
        reveal_strlit("0");
        reveal_strlit("1");
        reveal_strlit("2");
        reveal_strlit("3");
        reveal_strlit("4");
        reveal_strlit("5");
        reveal_strlit("6");
        reveal_strlit("7");
        reveal_strlit("8");
        reveal_strlit("9");
    }
    match d {
        0 => s.append("0"),
        1 => s.append("1"),
        2 => s.append("2"),
        3 => s.append("3"),
        4 => s.append("4"),
        5 => s.append("5"),
        6 => s.append("6"),
        7 => s.append("7"),
        8 => s.append("8"),
        _ => s.append("9"),
    }
}

fn append_decimal(s: &mut String, n: u32)
    ensures
        final(s)@ == old(s)@ + decimal_of(n as nat),
    decreases n,
{
    if n >= 10 {
        append_decimal(s, n / 10);
    }
    append_digit(s, n % 10);
    if n >= 10 {
        assert(s@ == old(s)@ + decimal_of(n as nat)) by {
            assert(decimal_of(n as nat) == decimal_of((n / 10) as nat) + seq![digit_char((n % 10) as nat)]);
        }
    } else {
        assert(s@ =~= old(s)@ + decimal_of(n as nat));
    }
}

fn append_str(s: &mut String, t: &str)
    ensures
        final(s)@ == old(s)@ + t@,
{
    s.append(t);
}

impl Scene {
    /// The name of the scene (see `scene_name`).
    pub fn name(&self) -> (n: &'static str)
        ensures
            n@ == scene_name(*self),
    {
        proof {
            reveal_strlit("Single");
            reveal_strlit("Cube");
            reveal_strlit("Perlin");
        }
        match self {
            Scene::Single => "Single",
            Scene::Cube => "Cube",
            Scene::Perlin => "Perlin",
        }
    }
}

impl Test {
    /// The name of the test (see `test_name`).
    pub fn name(&self) -> (n: &'static str)
        ensures
            n@ == test_name(*self),
    {
        proof {
            reveal_strlit("Tri");
            reveal_strlit("Basic");
            reveal_strlit("Instanced");
            reveal_strlit("Culled");
            reveal_strlit("Greedy");
            reveal_strlit("Raymarch");
            reveal_strlit("Flat");
            reveal_strlit("Svt64");
        }
        match self {
            Test::Tri => "Tri",
            Test::Basic => "Basic",
            Test::Instanced => "Instanced",
            Test::Culled => "Culled",
            Test::Greedy => "Greedy",
            Test::Raymarch => "Raymarch",
            Test::Flat => "Flat",
            Test::Svt64 => "Svt64",
        }
    }
}

impl Args {
    /// The label of the run (see `label_of`), such as `Perlin 32, Culled FV`.
    pub fn label(&self) -> (s: String)
        ensures
            s@ == label_of(*self),
    {
        let mut s = String::new();
        append_str(&mut s, self.scene.name());
        if self.scene == Scene::Perlin {
            proof {
                reveal_strlit(" ");
                reveal_strlit("-");
            }
            append_str(&mut s, " ");
            if self.radius < 0 {
                append_str(&mut s, "-");
                let m: u32 = if self.radius == i32::MIN { 0x8000_0000u32 } else { (-self.radius) as u32 };
                append_decimal(&mut s, m);
            } else {
                append_decimal(&mut s, self.radius as u32);
            }
        }
        proof {
            reveal_strlit(", ");
        }
        append_str(&mut s, ", ");
        append_str(&mut s, self.test.name());
        let flags = self.flags();
        append_str(&mut s, flags.as_str());
        assert(s@ =~= label_of(*self));
        s
    }
}

} // verus!
