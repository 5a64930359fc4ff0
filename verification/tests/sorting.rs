use rand::Rng;

fn random_vector() -> Vec<i64> {
    let mut rng = rand::thread_rng();
    (0..20).map(|_| rng.gen_range(0..100)).collect()
}

fn invoke<F>(name: &str, sort: F)
where
    F: Fn(&mut Vec<i64>),
{
    let mut vec = random_vector();

    println!("\nSorting : {}", name);
    println!("Initial : {:?}", &vec);
    sort(&mut vec);
    println!("Sorted  : {:?}", &vec);
}

#[test]
fn insertion() {
    invoke("Insertion", algods::sorting::insertion::sort)
}

#[test]
fn selection() {
    invoke("Selection", algods::sorting::selection::sort)
}

#[test]
fn bubble() {
    invoke("Bubble", algods::sorting::bubble::sort)
}

#[test]
fn gnome() {
    invoke("Gnome", algods::sorting::gnome::sort)
}

#[test]
fn shaker() {
    invoke("Shaker", algods::sorting::shaker::sort)
}

#[test]
fn merge() {
    invoke("Merge", algods::sorting::merge::sort)
}
