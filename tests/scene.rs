use rays::hits::closest_hit;
use rays::scene::{const_true, Scene, SceneObject};

struct Ball {
    valid: bool,
    visible: bool,
}

impl SceneObject for Ball {
    fn validate(&self) -> bool {
        self.valid
    }

    fn is_visible_to_camera(&self) -> bool {
        self.visible
    }
}

#[test]
fn closest_hit_picks_nearest_first() {
    assert_eq!(closest_hit(&vec![]), None);
    assert_eq!(closest_hit(&vec![None, None]), None);
    assert_eq!(closest_hit(&vec![Some(5), None, Some(3), Some(3), Some(9)]), Some(2));
    assert_eq!(closest_hit(&vec![None, Some(7)]), Some(1));
}

#[test]
fn closest_hit_orders_float_bits() {
    let d = [4.0f64, 0.25, 1.5];
    let keys: Vec<Option<u64>> = d.iter().map(|x| Some(x.to_bits())).collect();
    assert_eq!(closest_hit(&keys), Some(1));
}

#[test]
fn scene_add_and_validate() {
    let mut scene: Scene<Ball> = Scene::new();
    assert!(scene.objects.is_empty());
    assert!(scene.validate());
    scene.add(Ball { valid: true, visible: true });
    assert!(scene.validate());
    scene.add(Ball { valid: false, visible: true });
    assert_eq!(scene.objects.len(), 2);
    assert!(!scene.validate());
}

#[test]
fn primary_rays_skip_hidden_objects() {
    let mut scene: Scene<Ball> = Scene::new();
    scene.add(Ball { valid: true, visible: false });
    scene.add(Ball { valid: true, visible: true });
    let keys = vec![Some(1), Some(10)];
    assert_eq!(scene.get_closest_hit(&keys, 0), Some(1));
    assert_eq!(scene.get_closest_hit(&keys, 1), Some(0));
    assert_eq!(scene.get_closest_hit(&vec![Some(1), None], 0), None);
}

#[test]
fn camera_visibility_defaults_to_true() {
    assert!(const_true());
}
