use zhangji::models::Category;
use zhangji::tree::{check_delete, check_move, check_new_child, node_depth};

fn c(id: i64, kind: &str, parent: Option<i64>, name: &str) -> Category {
    Category { id, kind: kind.to_string(), parent_id: parent, name: name.to_string(), sort: 0 }
}

fn tree() -> Vec<Category> {
    vec![
        c(1, "expense", None, "食品"),
        c(2, "expense", Some(1), "早餐"),
        c(3, "expense", Some(2), "包子"),
        c(4, "income", None, "工资"),
        c(5, "expense", None, "交通"),
        c(6, "expense", Some(99), "孤儿"),
    ]
}

#[test]
fn depths() {
    let t = tree();
    assert_eq!(node_depth(&t, 1), Some(0));
    assert_eq!(node_depth(&t, 2), Some(1));
    assert_eq!(node_depth(&t, 3), Some(2));
    assert_eq!(node_depth(&t, 6), None);
    assert_eq!(node_depth(&t, 42), None);
}

#[test]
fn depth_walk_stops_on_a_loop() {
    let t = vec![c(1, "expense", Some(2), "a"), c(2, "expense", Some(1), "b")];
    assert_eq!(node_depth(&t, 1), Some(11));
}

#[test]
fn new_children() {
    let t = tree();
    assert_eq!(check_new_child(&t, "expense", None), Ok(()));
    assert_eq!(check_new_child(&t, "expense", Some(2)), Ok(()));
    assert_eq!(check_new_child(&t, "expense", Some(42)), Err("父分类不存在".to_string()));
    assert_eq!(
        check_new_child(&t, "income", Some(1)),
        Err("子分类必须与父分类属于同一体系（支出/收入/账户）".to_string())
    );
    assert_eq!(check_new_child(&t, "expense", Some(3)), Err("最多支持三级分类（一级 → 二级 → 小级）".to_string()));
    assert_eq!(check_new_child(&t, "expense", Some(6)), Err("Query returned no rows".to_string()));
}

#[test]
fn moves() {
    let t = tree();
    assert_eq!(check_move(&t, 5, Some(1)), Ok(()));
    assert_eq!(check_move(&t, 5, None), Ok(()));
    assert_eq!(check_move(&t, 1, Some(1)), Err("不能把自己设为父级".to_string()));
    assert_eq!(check_move(&t, 5, Some(4)), Err("只能移动到同一体系（支出/收入/账户）内".to_string()));
    assert_eq!(check_move(&t, 1, Some(2)), Err("不能移动到自己的子分类下".to_string()));
    assert_eq!(check_move(&t, 5, Some(3)), Err("最多支持三级分类（一级 → 二级 → 小级）".to_string()));
}

#[test]
fn deletes() {
    let t = tree();
    assert_eq!(check_delete(&t, 3), Ok(()));
    assert_eq!(check_delete(&t, 1), Err("该分类下存在子分类，请先删除或移动子分类".to_string()));
    assert_eq!(check_delete(&t, 99), Err("该分类下存在子分类，请先删除或移动子分类".to_string()));
}

#[test]
fn moves_keep_three_levels() {
    let t = vec![
        c(10, "expense", None, "A"),
        c(11, "expense", Some(10), "a"),
        c(12, "expense", None, "B"),
        c(13, "expense", Some(12), "b"),
        c(14, "expense", Some(13), "b1"),
        c(15, "expense", None, "C"),
        c(16, "expense", Some(15), "c"),
    ];
    let too_deep = Err("最多支持三级分类（一级 → 二级 → 小级）".to_string());
    assert_eq!(check_move(&t, 15, Some(11)), too_deep);
    assert_eq!(check_move(&t, 15, Some(10)), Ok(()));
    assert_eq!(check_move(&t, 12, Some(10)), too_deep);
    assert_eq!(check_move(&t, 13, Some(10)), Ok(()));
    assert_eq!(check_move(&t, 13, Some(11)), too_deep);
    assert_eq!(check_move(&t, 14, Some(11)), Ok(()));
}
