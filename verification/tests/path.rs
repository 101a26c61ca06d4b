use std::path::{Component, Path};
use virtiofsd::path::{collect_names, same_component, split_names, HostPath, PathComponent};

fn by_std(path: &Path) -> Vec<PathComponent> {
    path.components()
        .map(|c| match c {
            Component::RootDir => PathComponent::RootDir,
            Component::CurDir => PathComponent::CurDir,
            Component::ParentDir => PathComponent::ParentDir,
            Component::Normal(name) => {
                PathComponent::Normal(name.as_encoded_bytes().to_vec())
            }
            Component::Prefix(_) => unreachable!(),
        })
        .collect()
}

/// Every text of up to six characters that matter to how a path is split.
fn texts(longest: usize) -> Vec<String> {
    let mut all = vec![String::new()];
    let mut last = all.clone();
    for _ in 0..longest {
        let mut longer = Vec::new();
        for text in &last {
            for c in ['/', '.', 'a'] {
                longer.push(format!("{text}{c}"));
            }
        }
        all.extend(longer.clone());
        last = longer;
    }
    all
}

#[test]
fn components_are_those_of_the_platform() {
    for text in texts(6) {
        let ours = HostPath::from_bytes(text.as_bytes()).components();
        assert_eq!(ours, by_std(Path::new(&text)), "{text:?}");
    }
}

#[test]
fn prefixes_are_those_of_the_platform() {
    let all = texts(4);
    for text in &all {
        for base in &all {
            let ours = HostPath::from_bytes(text.as_bytes())
                .strip_prefix(&HostPath::from_bytes(base.as_bytes()));
            let theirs = Path::new(text).strip_prefix(base).ok().map(by_std);
            assert_eq!(ours, theirs, "{text:?} {base:?}");
        }
    }
}

#[test]
fn parents_and_file_names_are_those_of_the_platform() {
    for text in texts(6) {
        let path = Path::new(&text);
        let mut ours = HostPath::from_bytes(text.as_bytes()).components();
        let file_name = match ours.pop() {
            Some(PathComponent::Normal(name)) => Some(name),
            _ => None,
        };
        assert_eq!(
            file_name,
            path.file_name().map(|name| name.as_encoded_bytes().to_vec()),
            "{text:?}"
        );
        if file_name.is_some() {
            assert_eq!(ours, by_std(path.parent().unwrap()), "{text:?}");
        }
    }
}

#[test]
fn names_need_not_be_unicode() {
    let path = HostPath::from_bytes(b"/\xff/\x00a");
    assert_eq!(
        path.components(),
        vec![
            PathComponent::RootDir,
            PathComponent::Normal(vec![0xff]),
            PathComponent::Normal(vec![0, b'a']),
        ]
    );
    assert_eq!(path.as_bytes(), b"/\xff/\x00a");
    assert_eq!(path.clone().as_bytes(), path.as_bytes());
}

#[test]
fn split_names_drops_empty_pieces_and_single_dots() {
    assert_eq!(
        split_names(b"//a/./..//b."),
        vec![b"a".to_vec(), b"..".to_vec(), b"b.".to_vec()]
    );
    assert!(split_names(b"").is_empty());
    assert!(split_names(b"/./.").is_empty());
}

#[test]
fn collected_names_are_the_normal_ones() {
    let list = HostPath::from_bytes(b"/a/../b").components();
    assert_eq!(collect_names(&list), vec![b"a".to_vec(), b"b".to_vec()]);
}

#[test]
fn components_are_told_apart() {
    let list = [
        PathComponent::RootDir,
        PathComponent::CurDir,
        PathComponent::ParentDir,
        PathComponent::Normal(b"a".to_vec()),
        PathComponent::Normal(b"ab".to_vec()),
    ];
    for (i, a) in list.iter().enumerate() {
        for (j, b) in list.iter().enumerate() {
            assert_eq!(same_component(a, b), i == j);
        }
    }
}
