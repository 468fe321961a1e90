use renderer::config::RendererConfiguration;
use renderer::futures::notification;
use renderer::resources::mesh::icosphere_topology;

#[test]
fn notification_after_notify_does_not_block() {
    let (sender, receiver) = notification();
    let second = receiver.clone();
    sender.notify_all();
    receiver.wait();
    second.wait();
    receiver.wait();
}

#[test]
fn notification_notify_one_releases_waiter() {
    let (sender, receiver) = notification();
    sender.notify_one();
    receiver.wait();
}

#[test]
fn default_configuration() {
    let conf = RendererConfiguration::default();
    assert!(!conf.fullscreen);
    assert_eq!(conf.resolution, [1600, 900]);
    assert_eq!(conf.gpu, 0);
    assert_eq!(conf.content_roots.len(), 1);
}

#[test]
fn icosphere_level_zero_is_icosahedron() {
    let (indices, parents) = icosphere_topology(0).unwrap();
    assert_eq!(indices.len(), 60);
    assert!(parents.is_empty());
    assert_eq!(&indices[0..6], &[0, 11, 5, 0, 5, 1]);
    assert!(indices.iter().all(|&i| i < 12));
}

#[test]
fn icosphere_level_one_splits_every_edge_once() {
    let (indices, parents) = icosphere_topology(1).unwrap();
    assert_eq!(indices.len(), 240);
    assert_eq!(parents.len(), 30);
    assert_eq!(&indices[0..12], &[0, 12, 14, 11, 13, 12, 5, 14, 13, 12, 13, 14]);
    assert_eq!(&parents[0..3], &[(0, 11), (5, 11), (0, 5)]);
}

#[test]
fn icosphere_vertex_counts_per_level() {
    for (level, vertices) in [(2u32, 162usize), (3, 642), (4, 2562), (5, 10242), (6, 40962)] {
        let (indices, parents) = icosphere_topology(level).unwrap();
        assert_eq!(12 + parents.len(), vertices);
        assert_eq!(indices.len(), 60 * 4usize.pow(level));
        assert!(indices.iter().all(|&i| (i as usize) < vertices));
        for (k, &(a, b)) in parents.iter().enumerate() {
            assert!(a <= b);
            assert!((b as usize) < 12 + k);
        }
    }
}

#[test]
fn icosphere_too_fine_does_not_fit_u16_indices() {
    assert!(icosphere_topology(7).is_none());
    assert!(icosphere_topology(u32::MAX).is_none());
}
