use yahmc::resources::ResourceId;
use yahmc::resources::Resources;

#[test]
fn res_id() {
    assert_eq!(ResourceId::new(7), ResourceId::new_with_id(7, 0));
    assert_eq!(ResourceId::new_with_id(7, 5), ResourceId(7, 5));
}

#[test]
fn add() {
    let mut res: Resources<i32> = Resources::new();
    res.add(7, 0);

    assert!(res.has_value(ResourceId::new(7)));
    assert!(!res.has_value(ResourceId::new_with_id(7, 1)));
    assert!(!res.has_value(ResourceId::new_with_id(7, 1)));
}

#[test]
fn fetch_uses_id() {
    let mut res: Resources<i32> = Resources::new();
    res.add_with_id(1, 5, 1);
    res.add_with_id(1, 50, 2);

    {
        let f = res.fetch(1, 1);
        assert_eq!(*res.read(&f), 5);
        res.release(f);
    }
    {
        let f = res.fetch(1, 2);
        assert_eq!(*res.read(&f), 50);
        res.release(f);
    }

    {
        let h = res.fetch_mut(1, 1);
        let doubled = *res.read_mut(&h) * 2;
        res.replace(&h, doubled);
        res.release_mut(h);
        let h = res.fetch_mut(1, 2);
        let doubled = *res.read_mut(&h) * 2;
        res.replace(&h, doubled);
        res.release_mut(h);
    }

    {
        let f = res.fetch(1, 1);
        assert_eq!(*res.read(&f), 10);
        res.release(f);
        let f = res.fetch(1, 2);
        assert_eq!(*res.read(&f), 100);
        res.release(f);
    }
}

#[test]
fn mutate() {
    let mut res: Resources<i32> = Resources::new();
    res.add_with_id(1, 5, 1);

    {
        let h = res.fetch_mut(1, 1);
        let doubled = *res.read_mut(&h) * 2;
        res.replace(&h, doubled);
        res.release_mut(h);
    }

    {
        let f = res.fetch(1, 1);
        assert_eq!(*res.read(&f), 10);
        res.release(f);
    }
}

#[test]
fn fetch_system_data() {
    let mut resources: Resources<i32> = Resources::new();
    resources.add(7, 0);
    let resource = resources.fetch(7, 0);
    assert_eq!(*resources.read(&resource), 0);
    resources.release(resource);
}

#[test]
fn fetch_mut_system_data() {
    let mut resources: Resources<i32> = Resources::new();
    resources.add(7, 0);
    {
        let resource = resources.fetch_mut(7, 0);
        resources.replace(&resource, 100);
        resources.release_mut(resource);
    }
    let updated_resource = resources.fetch(7, 0);
    assert_eq!(*resources.read(&updated_resource), 100);
    resources.release(updated_resource);
}

#[test]
fn fetch_system_data_tuple() {
    let mut resources: Resources<i32> = Resources::new();
    resources.add(7, 0);
    resources.add(8, 1);
    let (some, another) = resources
        .try_fetch_read_write(ResourceId::new(7), ResourceId::new(8))
        .unwrap();
    assert_eq!(*resources.read(&some), 0);
    resources.replace(&another, 2);
    assert_eq!(*resources.read_mut(&another), 2);
    resources.release(some);
    resources.release_mut(another);
}

#[test]
fn write_conflicts_with_outstanding_read() {
    let mut res: Resources<i32> = Resources::new();
    res.add(7, 4);

    let reader = res.fetch(7, 0);
    assert!(res.try_fetch_mut(7, 0).is_none());
    res.release(reader);

    let writer = res.try_fetch_mut(7, 0);
    assert!(writer.is_some());
    res.release_mut(writer.unwrap());
}

#[test]
fn read_conflicts_with_outstanding_write() {
    let mut res: Resources<i32> = Resources::new();
    res.add(7, 4);

    let writer = res.fetch_mut(7, 0);
    assert!(res.try_fetch(7, 0).is_none());
    assert!(res.try_fetch_mut(7, 0).is_none());
    res.release_mut(writer);

    let reader = res.try_fetch(7, 0);
    assert!(reader.is_some());
    let second_reader = res.try_fetch(7, 0);
    assert!(second_reader.is_some());
    res.release(reader.unwrap());
    res.release(second_reader.unwrap());
}

#[test]
fn missing_resource_is_not_fetched() {
    let mut res: Resources<i32> = Resources::new();
    assert!(res.try_fetch(7, 0).is_none());
    assert!(res.try_fetch_mut(7, 0).is_none());
}

#[test]
fn pair_fetch_rolls_back() {
    let mut res: Resources<i32> = Resources::new();
    res.add(7, 1);
    res.add(8, 2);

    let writer = res.fetch_mut(8, 0);
    assert!(res
        .try_fetch_pair(ResourceId::new(7), ResourceId::new(8))
        .is_none());
    res.release_mut(writer);

    let rolled_back = res.try_fetch_mut(7, 0);
    assert!(rolled_back.is_some());
    res.release_mut(rolled_back.unwrap());

    let pair = res.try_fetch_pair(ResourceId::new(7), ResourceId::new(8));
    assert!(pair.is_some());
    let (first, second) = pair.unwrap();
    assert_eq!(*res.read(&first), 1);
    assert_eq!(*res.read(&second), 2);
    res.release(first);
    res.release(second);
}

#[test]
fn pair_fetch_same_resource_twice() {
    let mut res: Resources<i32> = Resources::new();
    res.add(7, 1);
    let pair = res.try_fetch_pair(ResourceId::new(7), ResourceId::new(7));
    assert!(pair.is_some());
    let (first, second) = pair.unwrap();
    assert_eq!(*res.read(&first), 1);
    assert_eq!(*res.read(&second), 1);
    res.release(first);
    res.release(second);
}

#[test]
fn read_write_pair_rolls_back() {
    let mut res: Resources<i32> = Resources::new();
    res.add(7, 1);
    res.add(8, 2);

    let reader = res.fetch(8, 0);
    assert!(res
        .try_fetch_read_write(ResourceId::new(7), ResourceId::new(8))
        .is_none());
    res.release(reader);

    let rolled_back = res.try_fetch_mut(7, 0);
    assert!(rolled_back.is_some());
    res.release_mut(rolled_back.unwrap());

    let pair = res.try_fetch_read_write(ResourceId::new(7), ResourceId::new(8));
    assert!(pair.is_some());
    let (first, second) = pair.unwrap();
    assert_eq!(*res.read(&first), 1);
    assert_eq!(*res.read_mut(&second), 2);
    res.release(first);
    res.release_mut(second);
}

#[test]
fn read_write_pair_on_one_resource_conflicts() {
    let mut res: Resources<i32> = Resources::new();
    res.add(7, 1);
    assert!(res
        .try_fetch_read_write(ResourceId::new(7), ResourceId::new(7))
        .is_none());
    let free_again = res.try_fetch_mut(7, 0);
    assert!(free_again.is_some());
    res.release_mut(free_again.unwrap());
}
