use caixeiro::genetica::{cruzamento, indice_roleta, ordenar_por_custo, roleta};
use caixeiro::individuo::{mutacao_com_sorteios, Individuo};

/// Matriz de distancias (escala 1000) dos cantos de um quadrado de lado 10:
/// pontos (0,0), (0,10), (10,10), (10,0). Lados valem 10000, diagonais 14142.
fn tabela_quadrado() -> Vec<Vec<u32>> {
    vec![
        vec![0, 10000, 14142, 10000],
        vec![10000, 0, 10000, 14142],
        vec![14142, 10000, 0, 10000],
        vec![10000, 14142, 10000, 0],
    ]
}

fn individuo_com_custo(rota: Vec<usize>, dist: &Vec<Vec<u32>>) -> Individuo {
    let mut ind = Individuo { rota, custo: 0 };
    ind.calcular_custo(dist);
    ind
}

fn so_custo(custo: u64) -> Individuo {
    Individuo { rota: Vec::new(), custo }
}

#[test]
fn teste_calcular_custo_perimetro() {
    let dist = tabela_quadrado();
    let ind = individuo_com_custo(vec![0, 1, 2, 3], &dist);
    assert_eq!(ind.custo, 40000);
}

#[test]
fn teste_calcular_custo_com_diagonais() {
    let dist = tabela_quadrado();
    // 0->2 e 1->3 cruzam o quadrado: 14142 + 10000 + 14142 + 10000.
    let ind = individuo_com_custo(vec![0, 2, 1, 3], &dist);
    assert_eq!(ind.custo, 48284);
}

#[test]
fn teste_cruzamento_acha_a_troca_boa() {
    let dist = tabela_quadrado();
    let a = individuo_com_custo(vec![0, 2, 1, 3], &dist);
    let b = individuo_com_custo(vec![0, 1, 2, 3], &dist);
    let filho = cruzamento(&a, &b, &dist);
    assert_eq!(filho.rota, vec![0, 1, 2, 3]);
    assert_eq!(filho.custo, 40000);
}

#[test]
fn teste_cruzamento_nao_regressao() {
    let dist = tabela_quadrado();
    // Em toda combinacao de pais, o filho nunca custa mais que o pai `a`.
    let rotas: Vec<Vec<usize>> = vec![
        vec![0, 1, 2, 3],
        vec![0, 2, 1, 3],
        vec![1, 3, 0, 2],
        vec![3, 2, 1, 0],
        vec![2, 0, 3, 1],
    ];
    for ra in &rotas {
        for rb in &rotas {
            let a = individuo_com_custo(ra.clone(), &dist);
            let b = individuo_com_custo(rb.clone(), &dist);
            let filho = cruzamento(&a, &b, &dist);
            assert!(filho.custo <= a.custo);
            let conferido = individuo_com_custo(filho.rota.clone(), &dist);
            assert_eq!(filho.custo, conferido.custo);
        }
    }
}

#[test]
fn teste_cruzamento_ponto_fixo() {
    let dist = tabela_quadrado();
    let a = individuo_com_custo(vec![2, 0, 3, 1], &dist);
    let filho = cruzamento(&a, &a, &dist);
    assert_eq!(filho.rota, a.rota);
    assert_eq!(filho.custo, a.custo);
}

#[test]
fn teste_indice_roleta_exato() {
    // Custos 5, 3 e 2: somas acumuladas 5, 8 e 10.
    let populacao = vec![so_custo(5), so_custo(3), so_custo(2)];
    assert_eq!(indice_roleta(&populacao, 0), 0);
    assert_eq!(indice_roleta(&populacao, 5), 0);
    assert_eq!(indice_roleta(&populacao, 6), 1);
    assert_eq!(indice_roleta(&populacao, 8), 1);
    assert_eq!(indice_roleta(&populacao, 9), 2);
    // Sorteio que nenhuma soma acumulada alcanca: devolve 0.
    assert_eq!(indice_roleta(&populacao, 11), 0);
}

#[test]
fn teste_roleta_limites() {
    let populacao = vec![so_custo(5), so_custo(3), so_custo(2)];
    let mut ger = caixeiro::aleatorio::Gerador::nova(11);
    for _ in 0..50 {
        let i = roleta(&populacao, 10, &mut ger);
        assert!(i < populacao.len());
    }
}

#[test]
fn teste_mutacao_sorteios_iguais() {
    let dist = tabela_quadrado();
    let mut ind = individuo_com_custo(vec![0, 1, 2, 3], &dist);
    mutacao_com_sorteios(&mut ind, 2, 2);
    assert_eq!(ind.rota, vec![0, 1, 2, 3]);
    assert_eq!(ind.custo, 40000);
}

#[test]
fn teste_mutacao_sorteios_diferentes() {
    let dist = tabela_quadrado();
    let mut ind = individuo_com_custo(vec![0, 1, 2, 3], &dist);
    mutacao_com_sorteios(&mut ind, 0, 1);
    // A mutacao troca os genes mas nao recalcula o custo em cache.
    assert_eq!(ind.rota, vec![1, 0, 2, 3]);
    assert_eq!(ind.custo, 40000);
    ind.calcular_custo(&dist);
    assert_eq!(ind.custo, 48284);
}

#[test]
fn teste_ordenar_por_custo() {
    let mut populacao = vec![so_custo(5), so_custo(1), so_custo(4), so_custo(1), so_custo(3)];
    ordenar_por_custo(&mut populacao);
    let custos: Vec<u64> = populacao.iter().map(|ind| ind.custo).collect();
    assert_eq!(custos, vec![1, 1, 3, 4, 5]);
}

#[test]
fn teste_ordenar_vazia_e_unitaria() {
    let mut vazia: Vec<Individuo> = Vec::new();
    ordenar_por_custo(&mut vazia);
    assert_eq!(vazia.len(), 0);
    let mut uma = vec![so_custo(7)];
    ordenar_por_custo(&mut uma);
    assert_eq!(uma.len(), 1);
    assert_eq!(uma[0].custo, 7);
}
