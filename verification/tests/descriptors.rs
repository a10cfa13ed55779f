use recipe_diff::order::{
    all_among, compare_bytes, holds, same, same_members, sort_vec, Order, Ranked,
};
use recipe_diff::recipe::{fluids_missing, items_missing, GTRecipe};
use recipe_diff::stack::{
    same_text, FluidStack, ItemStack, PLACEHOLDER_ITEM_ID, PLACEHOLDER_ITEM_NAME,
};

fn item(amount: i32, metadata: i32, id: Option<&str>, name: Option<&str>) -> ItemStack {
    ItemStack {
        amount,
        metadata,
        unlocalized_name: id.map(|s| s.to_string()),
        localized_name: name.map(|s| s.to_string()),
    }
}

fn fluid(amount: i32, id: Option<&str>, name: Option<&str>) -> FluidStack {
    FluidStack {
        amount,
        unlocalized_name: id.map(|s| s.to_string()),
        localized_name: name.map(|s| s.to_string()),
    }
}

fn recipe(
    item_inputs: Vec<ItemStack>,
    fluid_inputs: Vec<FluidStack>,
    item_outputs: Vec<ItemStack>,
    fluid_outputs: Vec<FluidStack>,
) -> GTRecipe {
    GTRecipe {
        enabled: true,
        duration: 100,
        eut: 8,
        item_inputs,
        fluid_inputs,
        item_outputs,
        fluid_outputs,
    }
}

#[test]
fn placeholder_constants() {
    assert_eq!(PLACEHOLDER_ITEM_ID, "tile.fire");
    assert_eq!(PLACEHOLDER_ITEM_NAME, "Fire");
}

#[test]
fn item_with_both_names_is_present() {
    assert!(!item(1, 0, Some("item.ore"), Some("Ore")).is_missing());
}

#[test]
fn item_without_internal_name_is_missing() {
    assert!(item(1, 0, None, Some("Ore")).is_missing());
}

#[test]
fn item_without_display_name_is_missing() {
    assert!(item(1, 0, Some("item.ore"), None).is_missing());
}

#[test]
fn item_without_any_name_is_missing() {
    assert!(item(1, 0, None, None).is_missing());
}

#[test]
fn item_with_placeholder_identifier_is_missing() {
    assert!(item(1, 0, Some("tile.fire"), Some("Ore")).is_missing());
}

#[test]
fn item_with_placeholder_display_name_is_missing() {
    assert!(item(1, 0, Some("item.ore"), Some("Fire")).is_missing());
}

#[test]
fn item_placeholder_is_matched_exactly() {
    assert!(!item(1, 0, Some("tile.fire2"), Some("fire")).is_missing());
    assert!(!item(1, 0, Some("tile.fir"), Some("Fir")).is_missing());
    assert!(!item(1, 0, Some("Fire"), Some("tile.fire")).is_missing());
}

#[test]
fn fluid_is_missing_only_without_a_name() {
    assert!(!fluid(1000, Some("fluid.water"), Some("Water")).is_missing());
    assert!(fluid(1000, None, Some("Water")).is_missing());
    assert!(fluid(1000, Some("fluid.water"), None).is_missing());
    assert!(fluid(1000, None, None).is_missing());
}

#[test]
fn fluid_has_no_placeholder() {
    assert!(!fluid(1000, Some("tile.fire"), Some("Fire")).is_missing());
}

#[test]
fn lists_report_missing_members() {
    let good = item(1, 0, Some("item.ore"), Some("Ore"));
    let bad = item(1, 0, Some("item.ore"), None);
    assert!(!items_missing(&vec![]));
    assert!(!items_missing(&vec![good.clone(), good.clone()]));
    assert!(items_missing(&vec![good.clone(), bad.clone()]));
    assert!(items_missing(&vec![bad, good]));
    assert!(!fluids_missing(&vec![]));
    assert!(fluids_missing(&vec![fluid(1, Some("a"), Some("A")), fluid(1, None, None)]));
}

#[test]
fn recipe_has_missing_in_any_of_its_lists() {
    let good = item(1, 0, Some("item.ore"), Some("Ore"));
    let bad = item(1, 0, None, Some("Ore"));
    let water = fluid(1, Some("fluid.water"), Some("Water"));
    let unknown = fluid(1, Some("fluid.x"), None);
    assert!(!recipe(vec![good.clone()], vec![water.clone()], vec![good.clone()], vec![water.clone()])
        .has_missing());
    assert!(recipe(vec![bad.clone()], vec![], vec![], vec![]).has_missing());
    assert!(recipe(vec![], vec![unknown.clone()], vec![], vec![]).has_missing());
    assert!(recipe(vec![], vec![], vec![good.clone(), bad], vec![]).has_missing());
    assert!(recipe(vec![], vec![], vec![], vec![water, unknown]).has_missing());
    assert!(!recipe(vec![], vec![], vec![], vec![]).has_missing());
}

#[test]
fn bytes_are_ordered_lexicographically() {
    assert_eq!(compare_bytes(b"", b""), Order::Equal);
    assert_eq!(compare_bytes(b"", b"a"), Order::Less);
    assert_eq!(compare_bytes(b"a", b""), Order::Greater);
    assert_eq!(compare_bytes(b"abc", b"abd"), Order::Less);
    assert_eq!(compare_bytes(b"abd", b"abc"), Order::Greater);
    assert_eq!(compare_bytes(b"ab", b"abc"), Order::Less);
    assert_eq!(compare_bytes(b"b", b"abc"), Order::Greater);
    assert_eq!(compare_bytes(b"abc", b"abc"), Order::Equal);
    assert_eq!(compare_bytes(&[200], &[100, 1]), Order::Greater);
}

#[test]
fn strings_are_ordered_by_their_bytes() {
    let cases = [
        ("", "a"),
        ("Z", "a"),
        ("a", "b"),
        ("ab", "abc"),
        ("z", "\u{e9}"),
        ("\u{e9}", "\u{4e2d}"),
        ("\u{4e2d}", "\u{1f600}"),
    ];
    for (low, high) in cases {
        assert_eq!(low.to_string().compare(&high.to_string()), Order::Less);
        assert_eq!(high.to_string().compare(&low.to_string()), Order::Greater);
        assert_eq!(low.to_string().compare(&low.to_string()), Order::Equal);
        assert!(low.to_string() < high.to_string());
    }
}

#[test]
fn same_text_compares_contents() {
    assert!(same_text("Fire", "Fire"));
    assert!(!same_text("Fire", "fire"));
    assert!(!same_text("Fire", "Fir"));
    assert!(same_text("", ""));
}

#[test]
fn numbers_and_flags_are_ordered() {
    assert_eq!(3i32.compare(&4), Order::Less);
    assert_eq!((-3i32).compare(&-4), Order::Greater);
    assert_eq!(i32::MIN.compare(&i32::MAX), Order::Less);
    assert_eq!(7i32.compare(&7), Order::Equal);
    assert_eq!(false.compare(&true), Order::Less);
    assert_eq!(true.compare(&false), Order::Greater);
    assert_eq!(true.compare(&true), Order::Equal);
    assert_eq!(1u8.compare(&2), Order::Less);
}

#[test]
fn absent_name_comes_first() {
    let none: Option<String> = None;
    let empty = Some(String::new());
    let a = Some("a".to_string());
    assert_eq!(none.compare(&none), Order::Equal);
    assert_eq!(none.compare(&empty), Order::Less);
    assert_eq!(empty.compare(&none), Order::Greater);
    assert_eq!(empty.compare(&a), Order::Less);
}

#[test]
fn items_are_ordered_field_by_field() {
    let base = item(2, 5, Some("m"), Some("M"));
    assert_eq!(base.compare(&base.clone()), Order::Equal);
    // the amount decides first
    assert_eq!(item(1, 9, Some("z"), Some("Z")).compare(&base), Order::Less);
    assert_eq!(item(3, 0, None, None).compare(&base), Order::Greater);
    // then the sub-type
    assert_eq!(item(2, 4, Some("z"), Some("Z")).compare(&base), Order::Less);
    assert_eq!(item(2, 6, None, None).compare(&base), Order::Greater);
    // then the internal name
    assert_eq!(item(2, 5, Some("l"), Some("Z")).compare(&base), Order::Less);
    assert_eq!(item(2, 5, None, Some("Z")).compare(&base), Order::Less);
    assert_eq!(item(2, 5, Some("n"), None).compare(&base), Order::Greater);
    // then the display name
    assert_eq!(item(2, 5, Some("m"), Some("L")).compare(&base), Order::Less);
    assert_eq!(item(2, 5, Some("m"), None).compare(&base), Order::Less);
    assert_eq!(item(2, 5, Some("m"), Some("N")).compare(&base), Order::Greater);
}

#[test]
fn fluids_are_ordered_field_by_field() {
    let base = fluid(2, Some("m"), Some("M"));
    assert_eq!(base.compare(&base.clone()), Order::Equal);
    assert_eq!(fluid(1, Some("z"), Some("Z")).compare(&base), Order::Less);
    assert_eq!(fluid(2, Some("l"), Some("Z")).compare(&base), Order::Less);
    assert_eq!(fluid(2, Some("m"), Some("N")).compare(&base), Order::Greater);
    assert_eq!(fluid(2, None, Some("Z")).compare(&base), Order::Less);
}

#[test]
fn lists_are_ordered_lexicographically() {
    let a = item(1, 0, Some("a"), Some("A"));
    let b = item(2, 0, Some("a"), Some("A"));
    let empty: Vec<ItemStack> = vec![];
    assert_eq!(empty.compare(&empty), Order::Equal);
    assert_eq!(empty.compare(&vec![a.clone()]), Order::Less);
    assert_eq!(vec![a.clone()].compare(&empty), Order::Greater);
    assert_eq!(vec![a.clone()].compare(&vec![a.clone(), a.clone()]), Order::Less);
    assert_eq!(vec![a.clone(), b.clone()].compare(&vec![b.clone()]), Order::Less);
    assert_eq!(vec![b.clone()].compare(&vec![a.clone(), b.clone()]), Order::Greater);
    assert_eq!(vec![a.clone(), b.clone()].compare(&vec![a, b]), Order::Equal);
}

#[test]
fn pairs_are_ordered_by_first_then_second() {
    assert_eq!((1i32, true).compare(&(2i32, false)), Order::Less);
    assert_eq!((2i32, false).compare(&(2i32, true)), Order::Less);
    assert_eq!((2i32, true).compare(&(2i32, true)), Order::Equal);
    assert_eq!((3i32, false).compare(&(2i32, true)), Order::Greater);
}

#[test]
fn recipes_are_ordered_field_by_field() {
    let ore = item(1, 0, Some("ore"), Some("Ore"));
    let dust = item(2, 0, Some("dust"), Some("Dust"));
    let water = fluid(1, Some("water"), Some("Water"));
    let base = GTRecipe {
        enabled: true,
        duration: 200,
        eut: 16,
        item_inputs: vec![ore.clone()],
        fluid_inputs: vec![water.clone()],
        item_outputs: vec![dust.clone()],
        fluid_outputs: vec![water.clone()],
    };
    assert_eq!(base.compare(&base.clone()), Order::Equal);
    let mut other = base.clone();
    other.enabled = false;
    other.duration = 900;
    assert_eq!(other.compare(&base), Order::Less);
    let mut other = base.clone();
    other.duration = 199;
    other.eut = 900;
    assert_eq!(other.compare(&base), Order::Less);
    let mut other = base.clone();
    other.eut = 17;
    other.item_inputs = vec![];
    assert_eq!(other.compare(&base), Order::Greater);
    let mut other = base.clone();
    other.item_inputs = vec![];
    assert_eq!(other.compare(&base), Order::Less);
    let mut other = base.clone();
    other.fluid_inputs = vec![water.clone(), water.clone()];
    other.item_outputs = vec![];
    assert_eq!(other.compare(&base), Order::Greater);
    let mut other = base.clone();
    other.item_outputs = vec![ore.clone()];
    assert_eq!(other.compare(&base), Order::Less);
    let mut other = base.clone();
    other.fluid_outputs = vec![];
    assert_eq!(other.compare(&base), Order::Less);
}

#[test]
fn same_tells_equal_values() {
    let a = item(1, 0, Some("a"), Some("A"));
    assert!(same(&a, &a.clone()));
    assert!(!same(&a, &item(1, 0, Some("a"), Some("B"))));
    assert!(same(&vec![a.clone()], &vec![a.clone()]));
    assert!(!same(&vec![a.clone()], &vec![a.clone(), a]));
}

#[test]
fn lists_are_compared_as_sets() {
    let a = item(1, 0, Some("a"), Some("A"));
    let b = item(2, 0, Some("b"), Some("B"));
    let c = item(3, 0, Some("c"), None);
    let none: Vec<ItemStack> = vec![];
    assert!(holds(&vec![a.clone(), b.clone()], &b));
    assert!(!holds(&vec![a.clone(), b.clone()], &c));
    assert!(!holds(&none, &a));
    assert!(all_among(&none, &none));
    assert!(all_among(&none, &vec![a.clone()]));
    assert!(!all_among(&vec![a.clone()], &none));
    assert!(all_among(&vec![a.clone(), a.clone()], &vec![b.clone(), a.clone()]));
    assert!(!all_among(&vec![a.clone(), c.clone()], &vec![b.clone(), a.clone()]));
    assert!(same_members(&none, &none));
    assert!(same_members(&vec![a.clone(), b.clone()], &vec![b.clone(), a.clone()]));
    assert!(same_members(&vec![a.clone(), a.clone(), b.clone()], &vec![b.clone(), a.clone()]));
    assert!(same_members(&vec![a.clone()], &vec![a.clone(), a.clone(), a.clone()]));
    assert!(!same_members(&vec![a.clone(), b.clone()], &vec![a.clone()]));
    assert!(!same_members(&vec![a.clone()], &vec![a.clone(), c.clone()]));
    assert!(!same_members(&vec![a.clone()], &none));
    assert!(!same_members(&vec![a], &vec![b]));
}

#[test]
fn clone_keeps_every_field() {
    let a = item(7, 3, Some("a"), None);
    assert_eq!(a.clone(), a);
    let f = fluid(7, None, Some("F"));
    assert_eq!(f.clone(), f);
    let r = recipe(vec![a.clone()], vec![f.clone()], vec![a], vec![f]);
    assert_eq!(r.clone(), r);
}

#[test]
fn sort_orders_numbers() {
    let mut v = vec![5i32, -1, 3, 3, 0, i32::MAX, i32::MIN];
    sort_vec(&mut v);
    assert_eq!(v, vec![i32::MIN, -1, 0, 3, 3, 5, i32::MAX]);
}

#[test]
fn sort_of_empty_and_single() {
    let mut v: Vec<i32> = vec![];
    sort_vec(&mut v);
    assert_eq!(v, Vec::<i32>::new());
    let mut v = vec![4i32];
    sort_vec(&mut v);
    assert_eq!(v, vec![4]);
}

#[test]
fn sort_orders_items() {
    let a = item(1, 0, Some("b"), Some("B"));
    let b = item(1, 0, Some("a"), Some("A"));
    let c = item(1, 0, None, Some("C"));
    let d = item(0, 9, Some("z"), Some("Z"));
    let mut v = vec![a.clone(), b.clone(), c.clone(), d.clone(), b.clone()];
    sort_vec(&mut v);
    assert_eq!(v, vec![d, c, b.clone(), b, a]);
}

#[test]
fn sort_does_not_depend_on_the_order_given() {
    let items = vec![
        item(3, 0, Some("c"), Some("C")),
        item(1, 0, Some("a"), Some("A")),
        item(2, 1, Some("b"), Some("B")),
        item(2, 0, Some("b"), Some("B")),
    ];
    let mut expected = items.clone();
    sort_vec(&mut expected);
    let orders: [[usize; 4]; 4] = [[0, 1, 2, 3], [3, 2, 1, 0], [1, 3, 0, 2], [2, 0, 3, 1]];
    for order in orders {
        let mut v: Vec<ItemStack> = order.iter().map(|i| items[*i].clone()).collect();
        sort_vec(&mut v);
        assert_eq!(v, expected);
    }
}

#[test]
fn sort_agrees_with_the_order_of_strings() {
    let mut v: Vec<String> =
        ["pear", "apple", "", "Zebra", "apples", "\u{e9}clair"].iter().map(|s| s.to_string()).collect();
    let mut expected = v.clone();
    expected.sort();
    sort_vec(&mut v);
    assert_eq!(v, expected);
}

#[test]
fn sort_of_many_numbers_agrees_with_the_standard_sort() {
    let mut seed = 12345u64;
    for len in [2usize, 3, 7, 64, 1000] {
        let mut v: Vec<i32> = Vec::new();
        for _ in 0..len {
            seed = seed.wrapping_mul(6364136223846793005).wrapping_add(1442695040888963407);
            v.push(((seed >> 33) % 50) as i32 - 25);
        }
        let mut expected = v.clone();
        expected.sort();
        sort_vec(&mut v);
        assert_eq!(v, expected);
    }
}

#[test]
fn sort_of_sorted_and_reversed_lists() {
    let mut up: Vec<i32> = (0..100).collect();
    let mut down: Vec<i32> = (0..100).rev().collect();
    let expected: Vec<i32> = (0..100).collect();
    sort_vec(&mut up);
    sort_vec(&mut down);
    assert_eq!(up, expected);
    assert_eq!(down, expected);
}
