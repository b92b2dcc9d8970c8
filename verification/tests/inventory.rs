use sardips::inventory::{Accessory, Inventory, Item};

#[test]
fn accessories_come_out_in_the_order_they_went_in() {
    let mut inventory = Inventory::new();
    assert!(inventory.get_accessories().is_empty());
    inventory.add_item(Item::Accessory(Accessory::default()));
    inventory.add_item(Item::Accessory(Accessory::new("top_hat")));
    let names: Vec<&str> = inventory.get_accessories().iter().map(|a| a.template.as_str()).collect();
    assert_eq!(names, vec!["pink_helmet", "top_hat"]);
}
