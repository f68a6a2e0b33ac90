use engine::bounds::BoundingIntersection;
use engine::fence::Signal;
use engine::shaders::ShaderType;
use engine::svt64::Node;

#[test]
fn intersection_min_takes_the_weaker() {
    let (o, p, f) = (BoundingIntersection::Outside, BoundingIntersection::Partial, BoundingIntersection::Full);
    assert_eq!(f.min(p), p);
    assert_eq!(p.min(f), p);
    assert_eq!(f.min(o), o);
    assert_eq!(o.min(f), o);
    assert_eq!(f.min(f), f);
    assert_eq!(p.min(o), o);
}

#[test]
fn intersection_predicates_and_bool() {
    assert!(BoundingIntersection::Outside.is_none());
    assert!(BoundingIntersection::Partial.is_partial());
    assert!(BoundingIntersection::Full.is_full());
    assert!(!bool::from(BoundingIntersection::Outside));
    assert!(bool::from(BoundingIntersection::Partial));
    assert!(bool::from(BoundingIntersection::Full));
}

#[test]
fn fence_signals() {
    assert!(Signal::AlreadySignaled.signalled());
    assert!(Signal::ConditionSatisfied.signalled());
    assert!(!Signal::TimeOutExpired.signalled());
    assert!(!Signal::WaitFailed.signalled());
}

#[test]
fn node_child_pointer_keeps_the_leaf_flag() {
    let mut n = Node { data_offset: 0, mask_lower: 0, mask_upper: 0 };
    assert!(!n.is_leaf());
    n.set_is_leaf();
    assert!(n.is_leaf());
    n.set_child_ptr(21);
    assert_eq!(n.data_offset, (21 << 1) | 1);
    assert!(n.is_leaf());
    let mut m = Node { data_offset: 0, mask_lower: 0, mask_upper: 0 };
    m.set_child_ptr(0x8000_0005);
    assert_eq!(m.data_offset, 10);
}

#[test]
fn node_mask_bits_split_across_words() {
    let mut n = Node { data_offset: 3, mask_lower: 0, mask_upper: 0 };
    n.set_mask(0);
    n.set_mask(31);
    n.set_mask(32);
    n.set_mask(63);
    assert_eq!(n.mask_lower, 0x8000_0001);
    assert_eq!(n.mask_upper, 0x8000_0001);
    assert_eq!(n.data_offset, 3);
}

#[test]
fn shader_types_parse_in_any_case() {
    assert_eq!(ShaderType::parse("vert"), Ok(ShaderType::Vertex));
    assert_eq!(ShaderType::parse("VERTEX"), Ok(ShaderType::Vertex));
    assert_eq!(ShaderType::parse("Frag"), Ok(ShaderType::Fragment));
    assert_eq!(ShaderType::try_from("fragment"), Ok(ShaderType::Fragment));
    assert_eq!(ShaderType::try_from(String::from("GeOm")), Ok(ShaderType::Geometry));
    assert_eq!(ShaderType::from_lowercase("geometry"), Some(ShaderType::Geometry));
    assert_eq!(ShaderType::from_lowercase("Geometry"), None);
}

#[test]
fn unknown_shader_type_is_refused_with_a_message() {
    assert_eq!(ShaderType::parse("compute"), Err(String::from("Invalid Shader Type compute")));
    assert_eq!(ShaderType::try_from("Tess"), Err(String::from("Invalid Shader Type Tess")));
}

#[test]
fn shader_type_names() {
    assert_eq!(ShaderType::Vertex.to_string(), "Vertex");
    assert_eq!(ShaderType::Fragment.to_string(), "Fragment");
    assert_eq!(ShaderType::Geometry.to_string(), "Geometry");
}

#[test]
fn run_options() {
    use_args();
}

fn use_args() {
    let a = engine::args::Args::default();
    assert_eq!(a.scene, engine::args::Scene::Single);
    assert_eq!(a.test, engine::args::Test::Culled);
    assert_eq!((a.radius, a.depth), (32, 20));
    assert_eq!(a.flags(), "");
    assert!(!a.shows_radius());
    let b = engine::args::Args { frustum_cull: true, combine: true, scene: engine::args::Scene::Perlin, ..a };
    assert_eq!(b.flags(), " FC");
    assert!(b.shows_radius());
    let c = engine::args::Args { vertex_pull: true, ..a };
    assert_eq!(c.flags(), " V");
    assert_eq!(engine::args::Scene::all().len(), 3);
    assert_eq!(engine::args::Test::iter()[0], engine::args::Test::Basic);
}

#[test]
fn run_labels() {
    let a = engine::args::Args::default();
    assert_eq!(a.label(), "Single, Culled");
    let b = engine::args::Args { scene: engine::args::Scene::Perlin, frustum_cull: true, vertex_pull: true, ..a };
    assert_eq!(b.label(), "Perlin 32, Culled FV");
    let c = engine::args::Args { scene: engine::args::Scene::Perlin, radius: -105, test: engine::args::Test::Svt64, ..a };
    assert_eq!(c.label(), "Perlin -105, Svt64");
    let d = engine::args::Args { scene: engine::args::Scene::Perlin, radius: i32::MIN, combine: true, ..a };
    assert_eq!(d.label(), format!("Perlin {}, Culled C", i32::MIN));
    assert_eq!(engine::args::Scene::Cube.name(), "Cube");
}
