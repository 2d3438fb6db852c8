use xr_wgpu::scene::{DrawCall, Entity, Mesh, Model, Primitive, TraversalError};

fn entity(mesh_index: Option<usize>, children: Vec<usize>) -> Entity {
    Entity { name: None, mesh_index, children }
}

fn model(root: Vec<usize>, entities: Vec<Entity>) -> Model {
    Model {
        root_entity: Entity { name: Some("Root".to_string()), mesh_index: None, children: root },
        entities,
        meshes: vec![],
        material_count: 0,
    }
}

#[test]
fn every_reachable_entity_visited_once() {
    // 0 -> (1 -> 3, 2), 4 -> 5 ; entity 6 unreachable
    let m = model(
        vec![0, 4],
        vec![
            entity(None, vec![1, 2]),
            entity(None, vec![3]),
            entity(None, vec![]),
            entity(None, vec![]),
            entity(None, vec![5]),
            entity(None, vec![]),
            entity(None, vec![]),
        ],
    );
    let order = m.visit_order().unwrap();
    let mut visits = vec![0u32; m.entities.len()];
    for e in &order {
        visits[*e] += 1;
    }
    assert_eq!(visits, vec![1, 1, 1, 1, 1, 1, 0]);
    assert_eq!(order, vec![0, 1, 3, 2, 4, 5]);
}

#[test]
fn empty_tree_visits_nothing() {
    let m = model(vec![], vec![entity(None, vec![])]);
    assert_eq!(m.visit_order(), Ok(vec![]));
}

#[test]
fn cycle_is_reported() {
    let m = model(vec![0], vec![entity(None, vec![1]), entity(None, vec![0])]);
    assert_eq!(m.visit_order(), Err(TraversalError::Revisit(0)));
}

#[test]
fn shared_child_is_reported() {
    let m = model(vec![0, 1], vec![entity(None, vec![2]), entity(None, vec![2]), entity(None, vec![])]);
    assert_eq!(m.visit_order(), Err(TraversalError::Revisit(2)));
}

#[test]
fn bad_child_index_is_reported() {
    let m = model(vec![0], vec![entity(None, vec![7])]);
    assert_eq!(m.visit_order(), Err(TraversalError::InvalidEntity(7)));
}

#[test]
fn draws_follow_traversal_and_primitive_order() {
    let mut m = model(vec![0], vec![entity(Some(1), vec![1]), entity(Some(0), vec![]), ]);
    m.meshes = vec![
        Mesh { name: None, primitives: vec![Primitive { index_count: 6, material_index: 0 }], animated: false },
        Mesh {
            name: Some("body".to_string()),
            primitives: vec![
                Primitive { index_count: 36, material_index: 1 },
                Primitive { index_count: 12, material_index: 0 },
            ],
            animated: true,
        },
    ];
    m.material_count = 2;
    let draws = m.render().unwrap();
    assert_eq!(
        draws,
        vec![
            DrawCall { entity: 0, mesh: 1, primitive: 0, material: 1, index_count: 36, animated: true },
            DrawCall { entity: 0, mesh: 1, primitive: 1, material: 0, index_count: 12, animated: true },
            DrawCall { entity: 1, mesh: 0, primitive: 0, material: 0, index_count: 6, animated: false },
        ]
    );
    m.material_count = 1;
    assert_eq!(m.render(), Err(TraversalError::InvalidMaterial(1)));
    m.entities[1].mesh_index = Some(9);
    assert_eq!(m.draw_list(&vec![1]), Err(TraversalError::InvalidMesh(9)));
}

#[test]
fn unreachable_lister_does_not_block() {
    // entity 2 is unreachable and lists the reachable entity 1
    let m = model(vec![0], vec![entity(None, vec![1]), entity(None, vec![]), entity(None, vec![1])]);
    assert_eq!(m.visit_order(), Ok(vec![0, 1]));
    assert_eq!(m.render(), Ok(vec![]));
}

#[test]
fn subtrees_finish_before_next_sibling() {
    // 0 -> 1 -> 2, then the root's second child 3 -> 4
    let m = model(
        vec![0, 3],
        vec![
            entity(None, vec![1]),
            entity(None, vec![2]),
            entity(None, vec![]),
            entity(None, vec![4]),
            entity(None, vec![]),
        ],
    );
    assert_eq!(m.visit_order(), Ok(vec![0, 1, 2, 3, 4]));
}
