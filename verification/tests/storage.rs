use std::rc::Rc;
use underkate::dialog::{Dialog, DialogFrame};
use underkate::game_context::GameContext;
use underkate::pass_map::Bitmap;
use underkate::resources::{
    GlobalResourceStorage, ResourceStorage, ResourceStorageCloneExt,
};
use underkate::script::EventHandleGenerator;

#[test]
fn put_then_get_returns_the_resource() {
    let mut storage = GlobalResourceStorage::new();
    let bitmap = Bitmap::new(2, 1, &[1, 0]);
    storage.put(String::from("overworld/rooms/home/room"), bitmap);

    let found: &Bitmap = storage.get("overworld/rooms/home/room");
    assert_eq!(found.width(), 2);
    assert_eq!(found.height(), 1);
}

#[test]
fn try_get_reports_a_missing_name() {
    let storage = GlobalResourceStorage::new();
    let result: Result<&Bitmap, _> = storage.try_get("no/such/resource");
    let error = result.err().expect("lookup must fail");
    assert_eq!(error.name, "no/such/resource");
    assert_eq!(
        error.message(),
        "Resource with name `no/such/resource` does not exist"
    );
}

#[test]
fn storages_of_different_kinds_are_independent() {
    let mut events = EventHandleGenerator::new();
    let advance = events.gen_handle();
    let mut storage = GlobalResourceStorage::new();
    storage.put(String::from("shared/name"), Bitmap::new(1, 1, &[0]));
    storage.put(
        String::from("shared/name"),
        Dialog::new(vec![DialogFrame { text: String::from("hi") }], advance),
    );

    let bitmap: Result<&Bitmap, _> = storage.try_get("shared/name");
    assert!(bitmap.is_ok());
    let dialog: Result<&Dialog, _> = storage.try_get("shared/name");
    assert!(dialog.is_ok());
}

#[test]
fn get_cloned_hands_out_a_copy() {
    let mut events = EventHandleGenerator::new();
    let advance = events.gen_handle();
    let mut storage = GlobalResourceStorage::new();
    storage.put(
        String::from("dialogue/intro"),
        Dialog::new(vec![DialogFrame { text: String::from("hello") }], advance),
    );

    let first: Dialog = storage.get_cloned("dialogue/intro");
    let second: Dialog = storage.get_cloned("dialogue/intro");
    drop(first);
    drop(second);

    let still_there: Result<&Dialog, _> = storage.try_get("dialogue/intro");
    assert!(still_there.is_ok());
}

#[test]
fn cloning_a_context_shares_the_storage() {
    let mut storage = GlobalResourceStorage::new();
    storage.put(String::from("overworld/pass"), Bitmap::new(3, 1, &[1, 0, 1]));
    let ctx = GameContext::new(Rc::new(storage));

    let cloned = ctx.clone();
    let through_clone: &Bitmap = cloned.global_resource_storage.get("overworld/pass");
    assert_eq!(through_clone.width(), 3);
    let through_original: &Bitmap = ctx.global_resource_storage.get("overworld/pass");
    assert_eq!(through_original.height(), 1);
    assert!(Rc::ptr_eq(
        &ctx.global_resource_storage,
        &cloned.global_resource_storage
    ));
}
