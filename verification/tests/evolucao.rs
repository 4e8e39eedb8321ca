use caixeiro::aleatorio::Gerador;
use caixeiro::genetica::{nova_geracao, novas_geracoes, ordenar_por_custo, TAM_POPULACAO};
use caixeiro::individuo::{gerar_rota, mutacao, Individuo};

/// Matriz de distancias (escala 1000) dos cantos de um quadrado de lado 10.
fn tabela_quadrado() -> Vec<Vec<u32>> {
    vec![
        vec![0, 10000, 14142, 10000],
        vec![10000, 0, 10000, 14142],
        vec![14142, 10000, 0, 10000],
        vec![10000, 14142, 10000, 0],
    ]
}

/// Uma matriz valida de dez pontos: distancia |i - j|, simetrica, diagonal
/// nula e positiva fora dela.
fn tabela_dez() -> Vec<Vec<u32>> {
    let mut dist = Vec::new();
    for i in 0..10u32 {
        let mut linha = Vec::new();
        for j in 0..10u32 {
            linha.push(if i > j { i - j } else { j - i });
        }
        dist.push(linha);
    }
    dist
}

fn eh_permutacao(rota: &Vec<usize>, n: usize) -> bool {
    let mut copia = rota.clone();
    copia.sort();
    copia == (0..n).collect::<Vec<usize>>()
}

fn custo_recalculado(ind: &Individuo, dist: &Vec<Vec<u32>>) -> u64 {
    let mut copia = Individuo { rota: ind.rota.clone(), custo: 0 };
    copia.calcular_custo(dist);
    copia.custo
}

#[test]
fn teste_gerar_rota_permutacao() {
    let dist = tabela_dez();
    let mut ger = Gerador::nova(3);
    for _ in 0..20 {
        let ind = gerar_rota(&dist, &mut ger);
        assert!(eh_permutacao(&ind.rota, 10));
        assert_eq!(ind.custo, custo_recalculado(&ind, &dist));
    }
}

#[test]
fn teste_mutacao_preserva_permutacao() {
    let dist = tabela_dez();
    let mut ger = Gerador::nova(5);
    let mut ind = gerar_rota(&dist, &mut ger);
    for _ in 0..30 {
        let custo_antes = ind.custo;
        mutacao(&mut ind, &mut ger);
        assert!(eh_permutacao(&ind.rota, 10));
        // A mutacao nunca toca o custo em cache.
        assert_eq!(ind.custo, custo_antes);
        ind.calcular_custo(&dist);
    }
}

#[test]
fn teste_nova_geracao_tamanho_e_ordem() {
    let dist = tabela_quadrado();
    let mut ger = Gerador::nova(9);
    let mut populacao = Vec::new();
    for _ in 0..10 {
        populacao.push(gerar_rota(&dist, &mut ger));
    }
    ordenar_por_custo(&mut populacao);
    let melhor_antes = populacao[0].custo;
    nova_geracao(&mut populacao, &dist, 4, &mut ger);
    assert_eq!(populacao.len(), 10);
    for par in populacao.windows(2) {
        assert!(par[0].custo <= par[1].custo);
    }
    for ind in &populacao {
        assert!(eh_permutacao(&ind.rota, 4));
        assert_eq!(ind.custo, custo_recalculado(&ind, &dist));
    }
    // O melhor sobrevive ao corte, e o cruzamento nunca piora um pai:
    // o melhor custo nao regride de uma geracao para a outra.
    assert!(populacao[0].custo <= melhor_antes);
}

#[test]
fn teste_novas_geracoes_quadrado() {
    // O cenario completo: quatro cantos de um quadrado de lado 10. O ciclo
    // otimo e o perimetro, de custo 40 (40000 na escala da matriz).
    let dist = tabela_quadrado();
    let mut ger = Gerador::nova(2024);
    let mut populacao = Vec::new();
    for _ in 0..TAM_POPULACAO {
        populacao.push(gerar_rota(&dist, &mut ger));
    }
    ordenar_por_custo(&mut populacao);
    novas_geracoes(&mut populacao, &dist, &mut ger);
    assert_eq!(populacao.len(), TAM_POPULACAO);
    for par in populacao.windows(2) {
        assert!(par[0].custo <= par[1].custo);
    }
    let melhor = &populacao[0];
    assert!(eh_permutacao(&melhor.rota, 4));
    assert_eq!(melhor.custo, 40000);
    assert_eq!(melhor.custo, custo_recalculado(&melhor, &dist));
}

#[test]
fn teste_abaixo_de_intervalo() {
    let mut ger = Gerador::nova(7);
    // Com limite 1 o unico valor possivel e 0: falharia se o sorteio
    // devolvesse o proprio limite.
    for _ in 0..10 {
        assert_eq!(ger.abaixo_de(1), 0);
        assert_eq!(ger.abaixo_de_u64(1), 0);
    }
    for _ in 0..100 {
        assert!(ger.abaixo_de(3) < 3);
        assert!(ger.abaixo_de_u64(5) < 5);
    }
}
